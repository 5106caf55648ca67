//! Tool definitions presented to the model and the per-turn tool
//! configuration derived from the model family and the session policies.

use vstd::prelude::*;

verus! {

use crate::exec_format::join_nl;
use crate::exec_format::join_nl_exec;
use crate::chars::str_to_chars;
use crate::chars::chars_to_string;
use crate::template::push_all;
use crate::json::JsonValue;

/// When the user must be asked before a command runs.
#[derive(Debug, Clone, Copy, PartialEq, Eq, Structural)]
pub enum AskForApproval {
    UnlessTrusted,
    OnFailure,
    OnRequest,
    Never,
}

/// How commands are sandboxed.
#[derive(Debug, Clone, PartialEq)]
pub enum SandboxPolicy {
    ReadOnly,
    WorkspaceWrite {
        writable_roots: Vec<String>,
        network_access: bool,
        exclude_tmpdir_env_var: bool,
        exclude_slash_tmp: bool,
    },
    DangerFullAccess,
}

/// Which form of the apply-patch tool a model family uses.
#[derive(Debug, Clone, Copy, PartialEq, Eq, Structural)]
pub enum ApplyPatchToolType {
    Freeform,
    Function,
}

/// The traits of a model family that matter for tool selection.
#[derive(Debug, Clone)]
pub struct ModelFamily {
    pub slug: String,
    pub family: String,
    pub needs_special_apply_patch_instructions: bool,
    pub supports_reasoning_summaries: bool,
    pub uses_local_shell_tool: bool,
    pub apply_patch_tool_type: Option<ApplyPatchToolType>,
}

/// JSON-Schema subset used in tool definitions. Object properties are kept
/// as an ordered list of key/schema pairs.
#[derive(Debug)]
pub enum JsonSchema {
    Boolean { description: Option<String> },
    JsonString { description: Option<String> },
    Number { description: Option<String> },
    Array { items: Box<JsonSchema>, description: Option<String> },
    Object {
        properties: Vec<(String, JsonSchema)>,
        required: Option<Vec<String>>,
        additional_properties: Option<bool>,
    },
}

/// A function tool of the responses API.
#[derive(Debug)]
pub struct ResponsesApiTool {
    pub name: String,
    pub description: String,
    pub strict: bool,
    pub parameters: JsonSchema,
}

/// A freeform (custom grammar) tool.
#[derive(Debug, Clone, PartialEq)]
pub struct FreeformTool {
    pub name: String,
    pub description: String,
    pub format: FreeformToolFormat,
}

#[derive(Debug, Clone, PartialEq)]
pub struct FreeformToolFormat {
    pub r_type: String,
    pub syntax: String,
    pub definition: String,
}

/// A tool presented to the model.
#[derive(Debug)]
pub enum OpenAiTool {
    Function(ResponsesApiTool),
    LocalShell,
    WebSearch,
    Freeform(FreeformTool),
}

/// Which shell tool the turn presents.
#[derive(Debug, Clone)]
pub enum ConfigShellToolType {
    DefaultShell,
    ShellWithRequest { sandbox_policy: SandboxPolicy },
    LocalShell,
    StreamableShell,
}

/// The per-turn tool configuration.
#[derive(Debug, Clone)]
pub struct ToolsConfig {
    pub shell_type: ConfigShellToolType,
    pub plan_tool: bool,
    pub apply_patch_tool_type: Option<ApplyPatchToolType>,
    pub web_search_request: bool,
    pub include_view_image_tool: bool,
    pub include_subagent_tools: bool,
}

/// Inputs from which a `ToolsConfig` is derived.
pub struct ToolsConfigParams<'a> {
    pub model_family: &'a ModelFamily,
    pub approval_policy: AskForApproval,
    pub sandbox_policy: SandboxPolicy,
    pub include_plan_tool: bool,
    pub include_apply_patch_tool: bool,
    pub include_web_search_request: bool,
    pub use_streamable_shell_tool: bool,
    pub include_view_image_tool: bool,
    pub include_subagent_tools: bool,
}

impl ToolsConfig {
    /// Derive the tool configuration: the streamable shell wins over the
    /// model family's local shell; an on-request approval policy switches to
    /// the sandbox-aware shell; the apply-patch tool follows the model
    /// family, falling back to the freeform form when requested explicitly.
    pub fn new(params: &ToolsConfigParams) -> (r: ToolsConfig)
        ensures
            r.plan_tool == params.include_plan_tool,
            r.web_search_request == params.include_web_search_request,
            r.include_view_image_tool == params.include_view_image_tool,
            r.include_subagent_tools == params.include_subagent_tools,
            r.apply_patch_tool_type == (match params.model_family.apply_patch_tool_type {
                Some(t) => Some(t),
                None => if params.include_apply_patch_tool {
                    Some(ApplyPatchToolType::Freeform)
                } else {
                    None::<ApplyPatchToolType>
                },
            }),
            params.approval_policy == AskForApproval::OnRequest
                && !params.use_streamable_shell_tool ==> (r.shell_type
                matches ConfigShellToolType::ShellWithRequest { sandbox_policy }
                && sandbox_policy_matches(sandbox_policy, params.sandbox_policy)),
            params.approval_policy != AskForApproval::OnRequest
                || params.use_streamable_shell_tool ==> r.shell_type == (
            if params.use_streamable_shell_tool {
                ConfigShellToolType::StreamableShell
            } else if params.model_family.uses_local_shell_tool {
                ConfigShellToolType::LocalShell
            } else {
                ConfigShellToolType::DefaultShell
            }),
    {
        let mut shell_type = if params.use_streamable_shell_tool {
            ConfigShellToolType::StreamableShell
        } else if params.model_family.uses_local_shell_tool {
            ConfigShellToolType::LocalShell
        } else {
            ConfigShellToolType::DefaultShell
        };
        if params.approval_policy == AskForApproval::OnRequest
            && !params.use_streamable_shell_tool {
            shell_type = ConfigShellToolType::ShellWithRequest {
                sandbox_policy: clone_sandbox_policy(&params.sandbox_policy),
            };
        }
        let apply_patch_tool_type = match params.model_family.apply_patch_tool_type {
            Some(ApplyPatchToolType::Freeform) => Some(ApplyPatchToolType::Freeform),
            Some(ApplyPatchToolType::Function) => Some(ApplyPatchToolType::Function),
            None => {
                if params.include_apply_patch_tool {
                    Some(ApplyPatchToolType::Freeform)
                } else {
                    None
                }
            },
        };
        ToolsConfig {
            shell_type,
            plan_tool: params.include_plan_tool,
            apply_patch_tool_type,
            web_search_request: params.include_web_search_request,
            include_view_image_tool: params.include_view_image_tool,
            include_subagent_tools: params.include_subagent_tools,
        }
    }
}

/// The two policies agree field for field (writable roots by contents).
pub open spec fn sandbox_policy_matches(a: SandboxPolicy, b: SandboxPolicy) -> bool {
    match (a, b) {
        (SandboxPolicy::ReadOnly, SandboxPolicy::ReadOnly) => true,
        (SandboxPolicy::DangerFullAccess, SandboxPolicy::DangerFullAccess) => true,
        (
            SandboxPolicy::WorkspaceWrite {
                writable_roots: wr1,
                network_access: na1,
                exclude_tmpdir_env_var: et1,
                exclude_slash_tmp: es1,
            },
            SandboxPolicy::WorkspaceWrite {
                writable_roots: wr2,
                network_access: na2,
                exclude_tmpdir_env_var: et2,
                exclude_slash_tmp: es2,
            },
        ) => wr1.deep_view() == wr2.deep_view() && na1 == na2 && et1 == et2 && es1 == es2,
        _ => false,
    }
}

/// Shell tool types equal by contents.
pub open spec fn shell_type_matches(a: ConfigShellToolType, b: ConfigShellToolType) -> bool {
    match (a, b) {
        (ConfigShellToolType::DefaultShell, ConfigShellToolType::DefaultShell) => true,
        (ConfigShellToolType::LocalShell, ConfigShellToolType::LocalShell) => true,
        (ConfigShellToolType::StreamableShell, ConfigShellToolType::StreamableShell) => true,
        (
            ConfigShellToolType::ShellWithRequest { sandbox_policy: p1 },
            ConfigShellToolType::ShellWithRequest { sandbox_policy: p2 },
        ) => sandbox_policy_matches(p1, p2),
        _ => false,
    }
}

/// The tools config a nested sub-agent run uses: the parent's, with the
/// sub-agent tools force-disabled so a sub-agent cannot start another.
pub fn nested_tools_config(config: &ToolsConfig) -> (r: ToolsConfig)
    ensures
        shell_type_matches(r.shell_type, config.shell_type),
        r.plan_tool == config.plan_tool,
        r.apply_patch_tool_type == config.apply_patch_tool_type,
        r.web_search_request == config.web_search_request,
        r.include_view_image_tool == config.include_view_image_tool,
        !r.include_subagent_tools,
{
    let shell_type = match &config.shell_type {
        ConfigShellToolType::DefaultShell => ConfigShellToolType::DefaultShell,
        ConfigShellToolType::LocalShell => ConfigShellToolType::LocalShell,
        ConfigShellToolType::StreamableShell => ConfigShellToolType::StreamableShell,
        ConfigShellToolType::ShellWithRequest { sandbox_policy } => {
            ConfigShellToolType::ShellWithRequest {
                sandbox_policy: clone_sandbox_policy(sandbox_policy),
            }
        },
    };
    ToolsConfig {
        shell_type,
        plan_tool: config.plan_tool,
        apply_patch_tool_type: config.apply_patch_tool_type,
        web_search_request: config.web_search_request,
        include_view_image_tool: config.include_view_image_tool,
        include_subagent_tools: false,
    }
}

/// Copy of a sandbox policy, field for field.
pub fn clone_sandbox_policy(p: &SandboxPolicy) -> (r: SandboxPolicy)
    ensures
        sandbox_policy_matches(r, *p),
{
    match p {
        SandboxPolicy::ReadOnly => SandboxPolicy::ReadOnly,
        SandboxPolicy::DangerFullAccess => SandboxPolicy::DangerFullAccess,
        SandboxPolicy::WorkspaceWrite {
            writable_roots,
            network_access,
            exclude_tmpdir_env_var,
            exclude_slash_tmp,
        } => {
            let r = SandboxPolicy::WorkspaceWrite {
                writable_roots: crate::items::clone_string_vec(writable_roots),
                network_access: *network_access,
                exclude_tmpdir_env_var: *exclude_tmpdir_env_var,
                exclude_slash_tmp: *exclude_slash_tmp,
            };
            proof {
                if let SandboxPolicy::WorkspaceWrite { writable_roots: wr, .. } = &r {
                    assert(wr.deep_view() =~~= writable_roots.deep_view());
                }
            }
            r
        },
    }
}

/// The model-facing name of a tool.
pub open spec fn tool_name_spec(tool: OpenAiTool) -> Seq<char> {
    match tool {
        OpenAiTool::Function(t) => t.name@,
        OpenAiTool::LocalShell => "local_shell"@,
        OpenAiTool::WebSearch => "web_search"@,
        OpenAiTool::Freeform(f) => f.name@,
    }
}

/// The names of a tool list, in order.
pub open spec fn tool_names(tools: Seq<OpenAiTool>) -> Seq<Seq<char>> {
    Seq::new(tools.len(), |k: int| tool_name_spec(tools[k]))
}

/// The name a tool is filtered and dispatched under.
pub fn tool_name(tool: &OpenAiTool) -> (r: Option<&str>)
    ensures
        r matches Some(n) && n@ == tool_name_spec(*tool),
{
    match tool {
        OpenAiTool::Function(t) => Some(t.name.as_str()),
        OpenAiTool::LocalShell => Some("local_shell"),
        OpenAiTool::WebSearch => Some("web_search"),
        OpenAiTool::Freeform(f) => Some(f.name.as_str()),
    }
}

/// A function tool with the given name and a parameter object whose keys and
/// required list are exactly as given.
pub open spec fn is_function_tool(
    r: OpenAiTool,
    name: Seq<char>,
    description: Seq<char>,
    prop_keys: Seq<Seq<char>>,
    required: Seq<Seq<char>>,
) -> bool {
    &&& r matches OpenAiTool::Function(t)
    &&& (r matches OpenAiTool::Function(t) ==> {
        &&& t.name@ == name
        &&& t.description@ == description
        &&& !t.strict
        &&& (t.parameters matches JsonSchema::Object { properties, required: rq, additional_properties }
            && properties@.len() == prop_keys.len()
            && (forall|k: int| 0 <= k < prop_keys.len()
                ==> (#[trigger] properties@[k]).0@ == prop_keys[k])
            && (rq matches Some(rv) && rv@.len() == required.len()
                && (forall|k: int| 0 <= k < required.len()
                    ==> (#[trigger] rv@[k])@ == required[k]))
            && additional_properties == Some(false))
    })
}

fn push_string_prop(
    props: &mut Vec<(String, JsonSchema)>,
    key: &str,
    description: &str,
)
    ensures
        final(props)@.len() == old(props)@.len() + 1,
        forall|k: int| 0 <= k < old(props)@.len() ==> #[trigger] final(props)@[k] == old(props)@[k],
        final(props)@.last().0@ == key@,
        final(props)@.last().1 matches JsonSchema::JsonString { description: d } && (d matches Some(
            ds,
        ) && ds@ == description@),
{
    props.push(
        (
            String::from_str(key),
            JsonSchema::JsonString { description: Some(String::from_str(description)) },
        ),
    );
}

/// The `subagent_list` tool: no parameters.
pub fn create_subagent_list_tool() -> (r: OpenAiTool)
    ensures
        is_function_tool(
            r,
            "subagent_list"@,
            "List available sub-agents with their names and descriptions"@,
            Seq::empty(),
            Seq::empty(),
        ),
{
    let properties: Vec<(String, JsonSchema)> = Vec::new();
    OpenAiTool::Function(
        ResponsesApiTool {
            name: String::from_str("subagent_list"),
            description: String::from_str(
                "List available sub-agents with their names and descriptions",
            ),
            strict: false,
            parameters: JsonSchema::Object {
                properties,
                required: Some(Vec::new()),
                additional_properties: Some(false),
            },
        },
    )
}

/// The `subagent_describe` tool: requires `name`.
pub fn create_subagent_describe_tool() -> (r: OpenAiTool)
    ensures
        is_function_tool(
            r,
            "subagent_describe"@,
            "Get detailed information about a specific sub-agent including tools and prompt"@,
            seq!["name"@],
            seq!["name"@],
        ),
{
    let mut properties: Vec<(String, JsonSchema)> = Vec::new();
    push_string_prop(&mut properties, "name", "Name of the sub-agent to describe");
    let mut required: Vec<String> = Vec::new();
    required.push(String::from_str("name"));
    OpenAiTool::Function(
        ResponsesApiTool {
            name: String::from_str("subagent_describe"),
            description: String::from_str(
                "Get detailed information about a specific sub-agent including tools and prompt",
            ),
            strict: false,
            parameters: JsonSchema::Object {
                properties,
                required: Some(required),
                additional_properties: Some(false),
            },
        },
    )
}

/// The `subagent_run` tool: requires `name` and `task`; `model` is optional.
pub fn create_subagent_run_tool() -> (r: OpenAiTool)
    ensures
        is_function_tool(
            r,
            "subagent_run"@,
            "Execute a sub-agent with a specific task"@,
            seq!["name"@, "task"@, "model"@],
            seq!["name"@, "task"@],
        ),
{
    let mut properties: Vec<(String, JsonSchema)> = Vec::new();
    push_string_prop(&mut properties, "name", "Name of the sub-agent to run");
    push_string_prop(&mut properties, "task", "Task to execute with the sub-agent");
    push_string_prop(&mut properties, "model", "Optional model override for the sub-agent");
    let mut required: Vec<String> = Vec::new();
    required.push(String::from_str("name"));
    required.push(String::from_str("task"));
    OpenAiTool::Function(
        ResponsesApiTool {
            name: String::from_str("subagent_run"),
            description: String::from_str("Execute a sub-agent with a specific task"),
            strict: false,
            parameters: JsonSchema::Object {
                properties,
                required: Some(required),
                additional_properties: Some(false),
            },
        },
    )
}

/// The common `command`/`workdir`/`timeout_ms` shell parameters.
fn shell_base_properties() -> (r: Vec<(String, JsonSchema)>)
    ensures
        r@.len() == 3,
        r@[0].0@ == "command"@,
        r@[0].1 matches JsonSchema::Array { .. },
        r@[1].0@ == "workdir"@,
        r@[2].0@ == "timeout_ms"@,
        r@[2].1 matches JsonSchema::Number { .. },
{
    let mut properties: Vec<(String, JsonSchema)> = Vec::new();
    properties.push(
        (
            String::from_str("command"),
            JsonSchema::Array {
                items: Box::new(JsonSchema::JsonString { description: None }),
                description: Some(String::from_str("The command to execute")),
            },
        ),
    );
    properties.push(
        (
            String::from_str("workdir"),
            JsonSchema::JsonString {
                description: Some(
                    String::from_str("The working directory to execute the command in"),
                ),
            },
        ),
    );
    properties.push(
        (
            String::from_str("timeout_ms"),
            JsonSchema::Number {
                description: Some(String::from_str("The timeout for the command in milliseconds")),
            },
        ),
    );
    properties
}

/// The plain shell tool.
pub fn create_shell_tool() -> (r: OpenAiTool)
    ensures
        is_function_tool(
            r,
            "shell"@,
            "Runs a shell command and returns its output"@,
            seq!["command"@, "workdir"@, "timeout_ms"@],
            seq!["command"@],
        ),
{
    let properties = shell_base_properties();
    let mut required: Vec<String> = Vec::new();
    required.push(String::from_str("command"));
    OpenAiTool::Function(
        ResponsesApiTool {
            name: String::from_str("shell"),
            description: String::from_str("Runs a shell command and returns its output"),
            strict: false,
            parameters: JsonSchema::Object {
                properties,
                required: Some(required),
                additional_properties: Some(false),
            },
        },
    )
}

/// The `view_image` tool.
pub fn create_view_image_tool() -> (r: OpenAiTool)
    ensures
        is_function_tool(
            r,
            "view_image"@,
            "Attach a local image (by filesystem path) to the conversation context for this turn."@,
            seq!["path"@],
            seq!["path"@],
        ),
{
    let mut properties: Vec<(String, JsonSchema)> = Vec::new();
    push_string_prop(&mut properties, "path", "Local filesystem path to an image file");
    let mut required: Vec<String> = Vec::new();
    required.push(String::from_str("path"));
    OpenAiTool::Function(
        ResponsesApiTool {
            name: String::from_str("view_image"),
            description: String::from_str(
                "Attach a local image (by filesystem path) to the conversation context for this turn.",
            ),
            strict: false,
            parameters: JsonSchema::Object {
                properties,
                required: Some(required),
                additional_properties: Some(false),
            },
        },
    )
}

/// The description of the sandbox-aware shell tool.
pub open spec fn shell_sandbox_description(policy: SandboxPolicy) -> Seq<char> {
    match policy {
        SandboxPolicy::DangerFullAccess => "Runs a shell command and returns its output."@,
        SandboxPolicy::ReadOnly => (
        "\nThe shell tool is used to execute shell commands.\n- When invoking the shell tool, your call will be running in a sandbox, and some shell commands (including apply_patch) will require escalated permissions:\n  - Types of actions that require escalated privileges:\n    - Writing files\n    - Applying patches\n  - Examples of commands that require escalated privileges:\n    - apply_patch\n    - git commit\n    - npm install or pnpm install\n    - cargo build\n    - cargo test\n- When invoking a command that will require escalated privileges:\n  - Provide the with_escalated_permissions parameter with the boolean value true\n  - Include a short, 1 sentence explanation for why we need to run with_escalated_permissions in the justification parameter"
        )@,
        SandboxPolicy::WorkspaceWrite { writable_roots, network_access, .. } => (
        "\nThe shell tool is used to execute shell commands.\n- When invoking the shell tool, your call will be running in a sandbox, and some shell commands will require escalated privileges:\n  - Types of actions that require escalated privileges:\n    - Writing files other than those in the writable roots\n      - writable roots:\n"
        )@ + join_nl(Seq::new(writable_roots@.len(), |i: int| "        - "@ + writable_roots@[i]@))
            + (if !network_access {
            "\n    - Commands that require network access\n"@
        } else {
            Seq::<char>::empty()
        })
            + (
        "\n  - Examples of commands that require escalated privileges:\n    - git commit\n    - npm install or pnpm install\n    - cargo build\n    - cargo test\n- When invoking a command that will require escalated privileges:\n  - Provide the with_escalated_permissions parameter with the boolean value true\n  - Include a short, 1 sentence explanation for why we need to run with_escalated_permissions in the justification parameter."
        )@,
    }
}

/// The sandbox-aware shell tool: same base parameters, plus escalation
/// fields under a workspace-write policy, and a description that lists the
/// writable roots.
pub fn create_shell_tool_for_sandbox(sandbox_policy: &SandboxPolicy) -> (r: OpenAiTool)
    ensures
        (r matches OpenAiTool::Function(t) && t.name@ == "shell"@ && !t.strict && t.description@
            == shell_sandbox_description(*sandbox_policy)),
        (r matches OpenAiTool::Function(t) ==> (t.parameters matches JsonSchema::Object {
            properties,
            required,
            additional_properties,
        } && (match *sandbox_policy {
            SandboxPolicy::WorkspaceWrite { .. } => properties@.len() == 5 && properties@[3].0@
                == "with_escalated_permissions"@ && properties@[4].0@ == "justification"@,
            _ => properties@.len() == 3,
        }) && properties@[0].0@ == "command"@ && properties@[1].0@ == "workdir"@
            && properties@[2].0@ == "timeout_ms"@ && (required matches Some(rv) && rv@.len() == 1
            && rv@[0]@ == "command"@) && additional_properties == Some(false))),
{
    let mut properties = shell_base_properties();
    if let SandboxPolicy::WorkspaceWrite { .. } = sandbox_policy {
        properties.push(
            (
                String::from_str("with_escalated_permissions"),
                JsonSchema::Boolean {
                    description: Some(
                        String::from_str(
                            "Whether to request escalated permissions. Set to true if command needs to be run without sandbox restrictions",
                        ),
                    ),
                },
            ),
        );
        properties.push(
            (
                String::from_str("justification"),
                JsonSchema::JsonString {
                    description: Some(
                        String::from_str(
                            "Only set if with_escalated_permissions is true. 1-sentence explanation of why we want to run this command.",
                        ),
                    ),
                },
            ),
        );
    }
    let description: String = match sandbox_policy {
        SandboxPolicy::DangerFullAccess => String::from_str(
            "Runs a shell command and returns its output.",
        ),
        SandboxPolicy::ReadOnly => String::from_str(
            "\nThe shell tool is used to execute shell commands.\n- When invoking the shell tool, your call will be running in a sandbox, and some shell commands (including apply_patch) will require escalated permissions:\n  - Types of actions that require escalated privileges:\n    - Writing files\n    - Applying patches\n  - Examples of commands that require escalated privileges:\n    - apply_patch\n    - git commit\n    - npm install or pnpm install\n    - cargo build\n    - cargo test\n- When invoking a command that will require escalated privileges:\n  - Provide the with_escalated_permissions parameter with the boolean value true\n  - Include a short, 1 sentence explanation for why we need to run with_escalated_permissions in the justification parameter",
        ),
        SandboxPolicy::WorkspaceWrite { writable_roots, network_access, .. } => {
            let mut rows: Vec<Vec<char>> = Vec::new();
            let mut i: usize = 0;
            while i < writable_roots.len()
                invariant
                    i <= writable_roots@.len(),
                    rows.deep_view() == Seq::new(
                        i as nat,
                        |k: int| "        - "@ + writable_roots@[k]@,
                    ),
                decreases writable_roots.len() - i,
            {
                let mut row = str_to_chars("        - ");
                let rv = str_to_chars(writable_roots[i].as_str());
                push_all(&mut row, &rv);
                let ghost rows0 = rows.deep_view();
                rows.push(row);
                proof {
                    assert(rows.deep_view() =~~= rows0.push("        - "@ + writable_roots@[
                    i as int]@));
                    assert(rows.deep_view() =~~= Seq::new(
                        (i + 1) as nat,
                        |k: int| "        - "@ + writable_roots@[k]@,
                    ));
                }
                i = i + 1;
            }
            let joined = join_nl_exec(&rows, 0, rows.len());
            proof {
                assert(rows.deep_view().subrange(0, rows.deep_view().len() as int)
                    =~~= rows.deep_view());
            }
            let mut d = String::from_str(
                "\nThe shell tool is used to execute shell commands.\n- When invoking the shell tool, your call will be running in a sandbox, and some shell commands will require escalated privileges:\n  - Types of actions that require escalated privileges:\n    - Writing files other than those in the writable roots\n      - writable roots:\n",
            );
            let joined_s = chars_to_string(&joined);
            d.append(joined_s.as_str());
            if !*network_access {
                d.append("\n    - Commands that require network access\n");
            }
            d.append(
                "\n  - Examples of commands that require escalated privileges:\n    - git commit\n    - npm install or pnpm install\n    - cargo build\n    - cargo test\n- When invoking a command that will require escalated privileges:\n  - Provide the with_escalated_permissions parameter with the boolean value true\n  - Include a short, 1 sentence explanation for why we need to run with_escalated_permissions in the justification parameter.",
            );
            proof {
                if *network_access {
                    assert(d@ == shell_sandbox_description(*sandbox_policy));
                }
            }
            d
        },
    };
    OpenAiTool::Function(
        ResponsesApiTool {
            name: String::from_str("shell"),
            description,
            strict: false,
            parameters: JsonSchema::Object {
                properties,
                required: Some(vec![String::from_str("command")]),
                additional_properties: Some(false),
            },
        },
    )
}

/// The streamable `exec_command` tool.
pub fn create_exec_command_tool() -> (r: OpenAiTool)
    ensures
        tool_name_spec(r) == "exec_command"@,
        r matches OpenAiTool::Function(t),
{
    let mut properties: Vec<(String, JsonSchema)> = Vec::new();
    push_string_prop(&mut properties, "cmd", "The shell command to execute");
    let mut required: Vec<String> = Vec::new();
    required.push(String::from_str("cmd"));
    OpenAiTool::Function(
        ResponsesApiTool {
            name: String::from_str("exec_command"),
            description: String::from_str("Execute shell commands on the local machine with streaming output"),
            strict: false,
            parameters: JsonSchema::Object {
                properties,
                required: Some(required),
                additional_properties: Some(false),
            },
        },
    )
}

/// The streamable `write_stdin` tool.
pub fn create_write_stdin_tool() -> (r: OpenAiTool)
    ensures
        tool_name_spec(r) == "write_stdin"@,
        r matches OpenAiTool::Function(t),
{
    let mut properties: Vec<(String, JsonSchema)> = Vec::new();
    push_string_prop(&mut properties, "session_id", "The session to write to");
    push_string_prop(&mut properties, "chars", "The characters to write to stdin");
    let mut required: Vec<String> = Vec::new();
    required.push(String::from_str("session_id"));
    required.push(String::from_str("chars"));
    OpenAiTool::Function(
        ResponsesApiTool {
            name: String::from_str("write_stdin"),
            description: String::from_str(
                "Write characters to an exec session's stdin. Returns all stdout+stderr received within yield_time_ms.",
            ),
            strict: false,
            parameters: JsonSchema::Object {
                properties,
                required: Some(required),
                additional_properties: Some(false),
            },
        },
    )
}

/// The structured plan-update tool.
pub fn create_update_plan_tool() -> (r: OpenAiTool)
    ensures
        tool_name_spec(r) == "update_plan"@,
        r matches OpenAiTool::Function(t),
{
    let mut properties: Vec<(String, JsonSchema)> = Vec::new();
    push_string_prop(&mut properties, "explanation", "Optional explanation of the plan update");
    let mut required: Vec<String> = Vec::new();
    required.push(String::from_str("plan"));
    properties.push(
        (
            String::from_str("plan"),
            JsonSchema::Array {
                items: Box::new(JsonSchema::JsonString { description: None }),
                description: Some(String::from_str("The list of steps")),
            },
        ),
    );
    OpenAiTool::Function(
        ResponsesApiTool {
            name: String::from_str("update_plan"),
            description: String::from_str(
                "Updates the task plan. Provide an optional explanation and a list of plan items, each with a step and status.",
            ),
            strict: false,
            parameters: JsonSchema::Object {
                properties,
                required: Some(required),
                additional_properties: Some(false),
            },
        },
    )
}

/// The freeform apply-patch tool.
pub fn create_apply_patch_freeform_tool() -> (r: OpenAiTool)
    ensures
        tool_name_spec(r) == "apply_patch"@,
        r matches OpenAiTool::Freeform(f),
{
    OpenAiTool::Freeform(
        FreeformTool {
            name: String::from_str("apply_patch"),
            description: String::from_str("Use the `apply_patch` tool to edit files."),
            format: FreeformToolFormat {
                r_type: String::from_str("grammar"),
                syntax: String::from_str("lark"),
                definition: String::from_str(
                    "start: begin_patch hunk+ end_patch\nbegin_patch: \"*** Begin Patch\" LF\nend_patch: \"*** End Patch\" LF?",
                ),
            },
        },
    )
}

/// The function-call form of the apply-patch tool.
pub fn create_apply_patch_json_tool() -> (r: OpenAiTool)
    ensures
        tool_name_spec(r) == "apply_patch"@,
        r matches OpenAiTool::Function(t),
{
    let mut properties: Vec<(String, JsonSchema)> = Vec::new();
    push_string_prop(&mut properties, "input", "The entire contents of the apply_patch command");
    let mut required: Vec<String> = Vec::new();
    required.push(String::from_str("input"));
    OpenAiTool::Function(
        ResponsesApiTool {
            name: String::from_str("apply_patch"),
            description: String::from_str("Use the `apply_patch` tool to edit files."),
            strict: false,
            parameters: JsonSchema::Object {
                properties,
                required: Some(required),
                additional_properties: Some(false),
            },
        },
    )
}

/// The names of the built-in tools selected by a configuration, in the order
/// they are presented.
pub open spec fn builtin_tool_names(config: ToolsConfig) -> Seq<Seq<char>> {
    (match config.shell_type {
        ConfigShellToolType::DefaultShell => seq!["shell"@],
        ConfigShellToolType::ShellWithRequest { .. } => seq!["shell"@],
        ConfigShellToolType::LocalShell => seq!["local_shell"@],
        ConfigShellToolType::StreamableShell => seq!["exec_command"@, "write_stdin"@],
    }) + (if config.plan_tool {
        seq!["update_plan"@]
    } else {
        Seq::<Seq<char>>::empty()
    }) + (match config.apply_patch_tool_type {
        Some(_) => seq!["apply_patch"@],
        None => Seq::<Seq<char>>::empty(),
    }) + (if config.web_search_request {
        seq!["web_search"@]
    } else {
        Seq::<Seq<char>>::empty()
    }) + (if config.include_view_image_tool {
        seq!["view_image"@]
    } else {
        Seq::<Seq<char>>::empty()
    }) + (if config.include_subagent_tools {
        seq!["subagent_list"@, "subagent_describe"@, "subagent_run"@]
    } else {
        Seq::<Seq<char>>::empty()
    })
}


/// What each built-in tool must be, by its name, under the given config:
/// the shapes the tool builders promise.
pub open spec fn builtin_tool_ok(config: ToolsConfig, t: OpenAiTool) -> bool {
    let name = tool_name_spec(t);
    if name == "shell"@ {
        match config.shell_type {
            ConfigShellToolType::DefaultShell => is_function_tool(
                t,
                "shell"@,
                "Runs a shell command and returns its output"@,
                seq!["command"@, "workdir"@, "timeout_ms"@],
                seq!["command"@],
            ),
            ConfigShellToolType::ShellWithRequest { sandbox_policy } => (t
                matches OpenAiTool::Function(f) && f.description@ == shell_sandbox_description(
                sandbox_policy,
            ) && !f.strict),
            _ => false,
        }
    } else if name == "local_shell"@ {
        t == OpenAiTool::LocalShell
    } else if name == "web_search"@ {
        t == OpenAiTool::WebSearch
    } else if name == "exec_command"@ {
        t is Function
    } else if name == "write_stdin"@ {
        t is Function
    } else if name == "update_plan"@ {
        t is Function
    } else if name == "apply_patch"@ {
        match config.apply_patch_tool_type {
            Some(ApplyPatchToolType::Freeform) => t is Freeform,
            Some(ApplyPatchToolType::Function) => t is Function,
            None => false,
        }
    } else if name == "view_image"@ {
        is_function_tool(
            t,
            "view_image"@,
            "Attach a local image (by filesystem path) to the conversation context for this turn."@,
            seq!["path"@],
            seq!["path"@],
        )
    } else if name == "subagent_list"@ {
        is_function_tool(
            t,
            "subagent_list"@,
            "List available sub-agents with their names and descriptions"@,
            Seq::empty(),
            Seq::empty(),
        )
    } else if name == "subagent_describe"@ {
        is_function_tool(
            t,
            "subagent_describe"@,
            "Get detailed information about a specific sub-agent including tools and prompt"@,
            seq!["name"@],
            seq!["name"@],
        )
    } else if name == "subagent_run"@ {
        is_function_tool(
            t,
            "subagent_run"@,
            "Execute a sub-agent with a specific task"@,
            seq!["name"@, "task"@, "model"@],
            seq!["name"@, "task"@],
        )
    } else {
        false
    }
}

/// The built-in tool names are pairwise distinct.
proof fn lemma_builtin_name_texts()
    ensures
        "shell"@.len() == 5,
        "local_shell"@.len() == 11 && "local_shell"@[0] == 'l',
        "web_search"@.len() == 10 && "web_search"@[0] == 'w',
        "exec_command"@.len() == 12 && "exec_command"@[0] == 'e',
        "write_stdin"@.len() == 11 && "write_stdin"@[0] == 'w',
        "update_plan"@.len() == 11 && "update_plan"@[0] == 'u',
        "apply_patch"@.len() == 11 && "apply_patch"@[0] == 'a',
        "view_image"@.len() == 10 && "view_image"@[0] == 'v',
        "subagent_list"@.len() == 13,
        "subagent_describe"@.len() == 17,
        "subagent_run"@.len() == 12 && "subagent_run"@[0] == 's',
{
    reveal_strlit("shell");
    reveal_strlit("local_shell");
    reveal_strlit("web_search");
    reveal_strlit("exec_command");
    reveal_strlit("write_stdin");
    reveal_strlit("update_plan");
    reveal_strlit("apply_patch");
    reveal_strlit("view_image");
    reveal_strlit("subagent_list");
    reveal_strlit("subagent_describe");
    reveal_strlit("subagent_run");
}

/// Assemble the built-in tools for a turn. External tools, sorted by name,
/// are appended separately.
#[verifier::rlimit(100)]
pub fn get_openai_tools(config: &ToolsConfig) -> (r: Vec<OpenAiTool>)
    ensures
        tool_names(r@) == builtin_tool_names(*config),
        forall|k: int| 0 <= k < r@.len() ==> builtin_tool_ok(*config, #[trigger] r@[k]),
{
    proof {
        lemma_builtin_name_texts();
    }
    let mut tools: Vec<OpenAiTool> = Vec::new();
    match &config.shell_type {
        ConfigShellToolType::DefaultShell => {
            tools.push(create_shell_tool());
        },
        ConfigShellToolType::ShellWithRequest { sandbox_policy } => {
            tools.push(create_shell_tool_for_sandbox(sandbox_policy));
        },
        ConfigShellToolType::LocalShell => {
            tools.push(OpenAiTool::LocalShell);
        },
        ConfigShellToolType::StreamableShell => {
            tools.push(create_exec_command_tool());
            tools.push(create_write_stdin_tool());
        },
    }
    if config.plan_tool {
        tools.push(create_update_plan_tool());
    }
    match &config.apply_patch_tool_type {
        Some(ApplyPatchToolType::Freeform) => {
            tools.push(create_apply_patch_freeform_tool());
        },
        Some(ApplyPatchToolType::Function) => {
            tools.push(create_apply_patch_json_tool());
        },
        None => {},
    }
    if config.web_search_request {
        tools.push(OpenAiTool::WebSearch);
    }
    if config.include_view_image_tool {
        tools.push(create_view_image_tool());
    }
    if config.include_subagent_tools {
        tools.push(create_subagent_list_tool());
        tools.push(create_subagent_describe_tool());
        tools.push(create_subagent_run_tool());
    }
    proof {
        assert(tool_names(tools@) =~~= builtin_tool_names(*config));
        assert forall|k: int|
            0 <= k < tools@.len() implies builtin_tool_ok(*config, #[trigger] tools@[k]) by {
            lemma_builtin_name_texts();
        }
    }
    tools
}


/// Names of a region of the tool list are in non-decreasing lexicographic
/// order.
pub open spec fn suffix_sorted(ts: Seq<OpenAiTool>, n0: int) -> bool {
    forall|i: int, j: int|
        n0 <= i < j < ts.len() ==> !crate::chars::lex_lt(
            tool_name_spec(#[trigger] ts[j]),
            tool_name_spec(#[trigger] ts[i]),
        )
}

/// The external tools as function tools, in the given order.
pub open spec fn fun_seq(ts: Seq<ResponsesApiTool>) -> Seq<OpenAiTool> {
    Seq::new(ts.len(), |k: int| OpenAiTool::Function(ts[k]))
}

/// `a` sorts strictly before this tool's name.
fn name_chars_lt_tool(a: &Vec<char>, b: &OpenAiTool) -> (r: bool)
    ensures
        r <==> crate::chars::lex_lt(a@, tool_name_spec(*b)),
{
    match crate::tools::tool_name(b) {
        Some(n) => {
            let bn = str_to_chars(n);
            crate::chars::lex_cmp(a, &bn) == 0
        },
        None => {
            proof {
                assert(false);
            }
            false
        },
    }
}

/// Insert one external tool into the sorted region that starts at `n0`,
/// keeping that region sorted; everything before `n0` stays in place.
fn insert_mcp_sorted(tools: &mut Vec<OpenAiTool>, n0: usize, t: ResponsesApiTool)
    requires
        n0 <= old(tools)@.len(),
        suffix_sorted(old(tools)@, n0 as int),
    ensures
        final(tools)@.len() == old(tools)@.len() + 1,
        forall|k: int| 0 <= k < n0 ==> final(tools)@[k] == old(tools)@[k],
        suffix_sorted(final(tools)@, n0 as int),
        final(tools)@.skip(n0 as int).to_multiset() == old(tools)@.skip(n0 as int).to_multiset()
            .insert(OpenAiTool::Function(t)),
{
    broadcast use vstd::seq_lib::group_to_multiset_ensures;
    broadcast use vstd::multiset::group_multiset_axioms;

    let ghost s = tools@;
    let ghost ft = OpenAiTool::Function(t);
    let tname = str_to_chars(t.name.as_str());
    proof {
        assert(tname@ == tool_name_spec(ft));
    }
    let mut p: usize = n0;
    while p < tools.len() && !(name_chars_lt_tool(&tname, &tools[p]))
        invariant
            n0 <= p <= tools@.len(),
            tools@ == s,
            tname@ == tool_name_spec(ft),
            forall|k: int|
                n0 <= k < p ==> !crate::chars::lex_lt(
                    tool_name_spec(ft),
                    tool_name_spec(#[trigger] s[k]),
                ),
        decreases tools@.len() - p,
    {
        p = p + 1;
    }
    let ghost pp = p as int;
    tools.insert(p, t_to_tool(t));
    proof {
        let f = tools@;
        assert(f == s.insert(pp, ft));
        assert forall|i: int, j: int|
            n0 <= i < j < f.len() implies !crate::chars::lex_lt(
            tool_name_spec(#[trigger] f[j]),
            tool_name_spec(#[trigger] f[i]),
        ) by {
            if i < pp && j < pp {
                assert(f[i] == s[i] && f[j] == s[j]);
            } else if i < pp && j == pp {
                assert(f[i] == s[i] && f[j] == ft);
            } else if i < pp && j > pp {
                assert(f[i] == s[i] && f[j] == s[j - 1]);
            } else if i == pp && j > pp {
                assert(f[i] == ft && f[j] == s[j - 1]);
                if pp < s.len() {
                    assert(crate::chars::lex_lt(tool_name_spec(ft), tool_name_spec(s[pp])));
                    crate::chars::lemma_lex_trichotomy(tool_name_spec(s[pp]), tool_name_spec(ft));
                    if j - 1 > pp {
                        if crate::chars::lex_lt(tool_name_spec(s[j - 1]), tool_name_spec(ft)) {
                            crate::chars::lemma_lex_lt_trans(
                                tool_name_spec(s[j - 1]),
                                tool_name_spec(ft),
                                tool_name_spec(s[pp]),
                            );
                            assert(false);
                        }
                    } else {
                        crate::chars::lemma_lex_trichotomy(
                            tool_name_spec(s[j - 1]),
                            tool_name_spec(ft),
                        );
                    }
                }
            } else {
                assert(f[i] == s[i - 1] && f[j] == s[j - 1]);
            }
        }
        let fs = f.skip(n0 as int);
        let ss = s.skip(n0 as int);
        assert(fs =~= ss.insert(pp - n0, ft));
        assert(fs.remove(pp - n0) =~= ss);
        assert(fs[pp - n0] == ft);
        assert(fs.contains(ft));
        assert(ss.to_multiset() == fs.to_multiset().remove(ft));
        assert(fs.to_multiset().count(ft) > 0);
        assert(fs.to_multiset() =~= ss.to_multiset().insert(ft));
    }
}

/// Wrap an external tool for the tool list.
fn t_to_tool(t: ResponsesApiTool) -> (r: OpenAiTool)
    ensures
        r == OpenAiTool::Function(t),
{
    OpenAiTool::Function(t)
}

/// Append the external (MCP) tools to the built-in tool list: everything
/// already in the list stays in place, and the appended region holds exactly
/// the given tools, in name-sorted order for prompt-cache stability.
pub fn append_mcp_tools(tools: &mut Vec<OpenAiTool>, mcp: Vec<ResponsesApiTool>)
    ensures
        final(tools)@.len() == old(tools)@.len() + mcp@.len(),
        forall|k: int| 0 <= k < old(tools)@.len() ==> final(tools)@[k] == old(tools)@[k],
        suffix_sorted(final(tools)@, old(tools)@.len() as int),
        final(tools)@.skip(old(tools)@.len() as int).to_multiset() == fun_seq(mcp@).to_multiset(),
{
    broadcast use vstd::seq_lib::group_to_multiset_ensures;
    broadcast use vstd::multiset::group_multiset_axioms;

    let n0 = tools.len();
    let ghost target = fun_seq(mcp@).to_multiset();
    let mut rest = mcp;
    proof {
        assert(tools@.skip(n0 as int) =~= Seq::<OpenAiTool>::empty());
        assert forall|x: OpenAiTool|
            tools@.skip(n0 as int).to_multiset().add(fun_seq(rest@).to_multiset()).count(x)
                == target.count(x) by {
            assert(!tools@.skip(n0 as int).contains(x));
        }
        assert(tools@.skip(n0 as int).to_multiset().add(fun_seq(rest@).to_multiset())
            =~= target);
    }
    while rest.len() > 0
        invariant
            n0 <= tools@.len(),
            tools@.len() + rest@.len() == n0 + fun_seq(mcp@).len(),
            suffix_sorted(tools@, n0 as int),
            tools@.skip(n0 as int).to_multiset().add(fun_seq(rest@).to_multiset()) == target,
            forall|k: int| 0 <= k < n0 ==> tools@[k] == old(tools)@[k],
        decreases rest@.len(),
    {
        let ghost rest0 = rest@;
        let ghost pre = tools@.skip(n0 as int);
        if let Some(t) = rest.pop() {
            let ghost ft = OpenAiTool::Function(t);
            proof {
                assert(rest@ =~= rest0.drop_last());
                assert(fun_seq(rest0) =~= fun_seq(rest@).push(ft));
                vstd::seq_lib::to_multiset_build(fun_seq(rest@), ft);
                assert(fun_seq(rest@).push(ft).to_multiset() =~= fun_seq(rest@).to_multiset()
                    .insert(ft));
                assert(fun_seq(rest0).to_multiset() =~= fun_seq(rest@).to_multiset().insert(ft));
            }
            insert_mcp_sorted(tools, n0, t);
            proof {
                let post = tools@.skip(n0 as int);
                assert(post.to_multiset() == pre.to_multiset().insert(ft));
                assert(post.to_multiset().add(fun_seq(rest@).to_multiset()) =~= target);
            }
        }
    }
    proof {
        assert(rest@.len() == 0);
        assert(fun_seq(rest@).len() == 0);
        assert forall|x: OpenAiTool|
            tools@.skip(n0 as int).to_multiset().count(x) == target.count(x) by {
            assert(!fun_seq(rest@).contains(x));
        }
        assert(tools@.skip(n0 as int).to_multiset() =~= target);
    }
}


/// An optional description field of a schema object corresponds to the
/// variant's description.
pub open spec fn desc_matches(d: Option<String>, v: crate::json::JsonVal) -> bool {
    match d {
        Some(t) => crate::json::obj_str_of(v, "description"@) == Some(t@),
        None => crate::json::obj_str_of(v, "description"@) is None,
    }
}

/// The schema value's `required` field corresponds to the variant's list.
pub open spec fn required_matches(rq: Option<Vec<String>>, v: crate::json::JsonVal) -> bool {
    match rq {
        Some(xs) => crate::json::obj_str_list_of(v, "required"@) == Some(xs.deep_view()),
        None => crate::json::obj_field_of(v, "required"@) is None || crate::json::obj_field_of(
            v,
            "required"@,
        ) == Some(crate::json::JsonVal::Null),
    }
}

/// The schema value's `additionalProperties` field corresponds to the
/// variant's flag.
pub open spec fn ap_matches(ap: Option<bool>, v: crate::json::JsonVal) -> bool {
    match ap {
        Some(b) => crate::json::obj_bool_of(v, "additionalProperties"@) == Some(b),
        None => crate::json::obj_field_of(v, "additionalProperties"@) is None
            || crate::json::obj_field_of(v, "additionalProperties"@) == Some(
            crate::json::JsonVal::Null,
        ),
    }
}

/// A parsed schema describes the given JSON value: the type tag, the
/// description, and each variant's own fields agree, recursively.
pub open spec fn schema_matches(s: JsonSchema, v: crate::json::JsonVal) -> bool
    decreases s,
{
    match s {
        JsonSchema::Boolean { description } => crate::json::obj_str_of(v, "type"@) == Some(
            "boolean"@,
        ) && desc_matches(description, v),
        JsonSchema::JsonString { description } => crate::json::obj_str_of(v, "type"@) == Some(
            "string"@,
        ) && desc_matches(description, v),
        JsonSchema::Number { description } => (crate::json::obj_str_of(v, "type"@) == Some(
            "number"@,
        ) || crate::json::obj_str_of(v, "type"@) == Some("integer"@)) && desc_matches(
            description,
            v,
        ),
        JsonSchema::Array { items, description } => crate::json::obj_str_of(v, "type"@) == Some(
            "array"@,
        ) && desc_matches(description, v) && (crate::json::obj_field_of(v, "items"@) matches Some(
            iv,
        ) && schema_matches(*items, iv)),
        JsonSchema::Object { properties, required, additional_properties } => crate::json::obj_str_of(
            v,
            "type"@,
        ) == Some("object"@) && (crate::json::obj_field_of(v, "properties"@) matches Some(
            crate::json::JsonVal::Object(props),
        ) && props_match(properties@, props)) && required_matches(required, v) && ap_matches(
            additional_properties,
            v,
        ),
    }
}

/// The parsed property list describes the value's member list, pairwise.
pub open spec fn props_match(
    ss: Seq<(String, JsonSchema)>,
    ps: Seq<(Seq<char>, crate::json::JsonVal)>,
) -> bool
    decreases ss,
{
    ss.len() == ps.len() && (ss.len() == 0 || (props_match(ss.drop_last(), ps.drop_last())
        && ss.last().0@ == ps.last().0 && schema_matches(ss.last().1, ps.last().1)))
}

pub proof fn lemma_props_match_index(
    ss: Seq<(String, JsonSchema)>,
    ps: Seq<(Seq<char>, crate::json::JsonVal)>,
)
    ensures
        props_match(ss, ps) <==> (ss.len() == ps.len() && forall|k: int|
            0 <= k < ss.len() ==> (#[trigger] ss[k]).0@ == ps[k].0 && schema_matches(
                ss[k].1,
                ps[k].1,
            )),
    decreases ss.len(),
{
    if ss.len() > 0 && ss.len() == ps.len() {
        lemma_props_match_index(ss.drop_last(), ps.drop_last());
        assert forall|k: int| 0 <= k < ss.len() - 1 implies #[trigger] ss.drop_last()[k] == ss[k]
            && ps.drop_last()[k] == ps[k] by {}
        if props_match(ss, ps) {
            assert forall|k: int|
                0 <= k < ss.len() implies (#[trigger] ss[k]).0@ == ps[k].0 && schema_matches(
                ss[k].1,
                ps[k].1,
            ) by {
                if k < ss.len() - 1 {
                    assert(ss.drop_last()[k] == ss[k] && ps.drop_last()[k] == ps[k]);
                }
            }
        }
        if (ss.len() == ps.len() && forall|k: int|
            0 <= k < ss.len() ==> (#[trigger] ss[k]).0@ == ps[k].0 && schema_matches(
                ss[k].1,
                ps[k].1,
            )) {
            assert(props_match(ss.drop_last(), ps.drop_last()));
            assert(ss.last() == ss[ss.len() - 1] && ps.last() == ps[ps.len() - 1]);
        }
    }
}

/// A JSON value has the shape of a supported schema: an object with a
/// supported `type` tag, an optional string description, and the per-type
/// fields, recursively.
pub open spec fn schema_shape_ok(v: crate::json::JsonVal) -> bool
    decreases v,
{
    match v {
        crate::json::JsonVal::Object(ps) => {
            &&& crate::json::obj_str_of(v, "type"@) is Some
            &&& crate::dispatch::opt_str_field_ok(v, "description"@)
            &&& {
                let ty = crate::json::obj_str_of(v, "type"@)->Some_0;
                if ty == "boolean"@ || ty == "string"@ || ty == "number"@ || ty == "integer"@ {
                    true
                } else if ty == "array"@ {
                    items_field_ok(ps)
                } else if ty == "object"@ {
                    &&& props_field_ok(ps)
                    &&& req_field_ok(v)
                    &&& crate::dispatch::opt_bool_field_ok(v, "additionalProperties"@)
                } else {
                    false
                }
            }
        },
        _ => false,
    }
}

/// The first `items` member exists and holds a supported schema.
pub open spec fn items_field_ok(ps: Seq<(Seq<char>, crate::json::JsonVal)>) -> bool
    decreases ps,
{
    if ps.len() == 0 {
        false
    } else if ps.first().0 == "items"@ {
        schema_shape_ok(ps.first().1)
    } else {
        items_field_ok(ps.drop_first())
    }
}

/// The first `properties` member exists, is an object, and every member of
/// it holds a supported schema.
pub open spec fn props_field_ok(ps: Seq<(Seq<char>, crate::json::JsonVal)>) -> bool
    decreases ps,
{
    if ps.len() == 0 {
        false
    } else if ps.first().0 == "properties"@ {
        match ps.first().1 {
            crate::json::JsonVal::Object(props) => all_props_ok(props),
            _ => false,
        }
    } else {
        props_field_ok(ps.drop_first())
    }
}

/// Every member value is a supported schema.
pub open spec fn all_props_ok(props: Seq<(Seq<char>, crate::json::JsonVal)>) -> bool
    decreases props,
{
    props.len() == 0 || (schema_shape_ok(props.first().1) && all_props_ok(props.drop_first()))
}

/// The `required` field is absent, null, or an array of strings.
pub open spec fn req_field_ok(v: crate::json::JsonVal) -> bool {
    match crate::json::obj_field_of(v, "required"@) {
        None => true,
        Some(crate::json::JsonVal::Null) => true,
        Some(crate::json::JsonVal::Array(xs)) => forall|k: int|
            0 <= k < xs.len() ==> (#[trigger] xs[k]) is Text,
        _ => false,
    }
}

pub proof fn lemma_all_props_index(props: Seq<(Seq<char>, crate::json::JsonVal)>)
    ensures
        all_props_ok(props) <==> forall|k: int|
            0 <= k < props.len() ==> schema_shape_ok((#[trigger] props[k]).1),
    decreases props.len(),
{
    if props.len() > 0 {
        lemma_all_props_index(props.drop_first());
        assert forall|k: int|
            0 <= k < props.len() && (all_props_ok(props)) implies schema_shape_ok(
            (#[trigger] props[k]).1,
        ) by {
            if k > 0 {
                assert(props.drop_first()[k - 1] == props[k]);
            }
        }
        if (forall|k: int| 0 <= k < props.len() ==> schema_shape_ok((#[trigger] props[k]).1)) {
            assert forall|k: int|
                0 <= k < props.drop_first().len() implies schema_shape_ok(
                (#[trigger] props.drop_first()[k]).1,
            ) by {
                assert(props.drop_first()[k] == props[k + 1]);
            }
        }
    }
}

pub proof fn lemma_items_scan(ps: Seq<(Seq<char>, crate::json::JsonVal)>, i: int)
    requires
        0 <= i <= ps.len(),
        forall|k: int| 0 <= k < i ==> (#[trigger] ps[k]).0 != "items"@,
    ensures
        (i < ps.len() && ps[i].0 == "items"@) ==> items_field_ok(ps) == schema_shape_ok(ps[i].1),
        i == ps.len() ==> !items_field_ok(ps),
    decreases i,
{
    if i > 0 && ps.len() > 0 {
        assert forall|k: int| 0 <= k < i - 1 implies (#[trigger] ps.drop_first()[k]).0 != "items"@
        by {
            assert(ps.drop_first()[k] == ps[k + 1]);
        }
        lemma_items_scan(ps.drop_first(), i - 1);
        if i < ps.len() {
            assert(ps.drop_first()[i - 1] == ps[i]);
        }
    }
}

pub proof fn lemma_props_scan(ps: Seq<(Seq<char>, crate::json::JsonVal)>, i: int)
    requires
        0 <= i <= ps.len(),
        forall|k: int| 0 <= k < i ==> (#[trigger] ps[k]).0 != "properties"@,
    ensures
        (i < ps.len() && ps[i].0 == "properties"@) ==> props_field_ok(ps) == (match ps[i].1 {
            crate::json::JsonVal::Object(props) => all_props_ok(props),
            _ => false,
        }),
        i == ps.len() ==> !props_field_ok(ps),
    decreases i,
{
    if i > 0 && ps.len() > 0 {
        assert forall|k: int|
            0 <= k < i - 1 implies (#[trigger] ps.drop_first()[k]).0 != "properties"@ by {
            assert(ps.drop_first()[k] == ps[k + 1]);
        }
        lemma_props_scan(ps.drop_first(), i - 1);
        if i < ps.len() {
            assert(ps.drop_first()[i - 1] == ps[i]);
        }
    }
}


/// Parse a sanitized JSON value into the schema subset: accepted exactly
/// when the value has a supported shape; the parsed schema describes the
/// value.
#[verifier::loop_isolation(false)]
#[verifier::rlimit(100)]
pub fn schema_from_json(v: &JsonValue) -> (r: Option<JsonSchema>)
    ensures
        r is Some <==> schema_shape_ok(v@),
        (r matches Some(s) ==> schema_matches(s, v@)),
    decreases v,
{
    let ghost vv = *v;
    let ps: &Vec<(String, JsonValue)> = match v {
        JsonValue::Object(ps) => ps,
        _ => {
            return None;
        },
    };
    let ghost pvec = *ps;
    let ghost gps = crate::json::view_obj(ps@);
    proof {
        crate::json::lemma_view_obj_index(ps@);
    }
    let ty: &String = match crate::json::obj_get(v, "type") {
        Some(JsonValue::Text(t)) => t,
        _ => {
            return None;
        },
    };
    let description: Option<String> = match crate::json::obj_get(v, "description") {
        None => None,
        Some(JsonValue::Null) => None,
        Some(JsonValue::Text(s)) => Some(s.clone()),
        Some(_) => {
            return None;
        },
    };
    if crate::items::string_is(ty, "boolean") {
        return Some(JsonSchema::Boolean { description });
    }
    if crate::items::string_is(ty, "string") {
        return Some(JsonSchema::JsonString { description });
    }
    if crate::items::string_is(ty, "number") || crate::items::string_is(ty, "integer") {
        return Some(JsonSchema::Number { description });
    }
    if crate::items::string_is(ty, "array") {
        let n = ps.len();
        let mut i: usize = 0;
        while i < n && !(crate::items::string_is(&ps[i].0, "items"))
            invariant
                i <= n,
                forall|k: int| 0 <= k < i ==> (#[trigger] gps[k]).0 != "items"@,
            decreases n - i,
        {
            i = i + 1;
        }
        if i == n {
            proof {
                lemma_items_scan(gps, n as int);
            }
            return None;
        }
        let ghost gi = i as int;
        proof {
            lemma_items_scan(gps, gi);
            crate::json::lemma_first_key_idx_at(gps, "items"@, 0, gi);
            assert(vv == JsonValue::Object(pvec));
            assert(decreases_to!(vv => pvec));
            vstd::std_specs::vec::axiom_vec_index_decreases(pvec, gi);
            assert(decreases_to!(pvec[gi] => pvec[gi].1));
        }
        let inner = match schema_from_json(&ps[i].1) {
            Some(s) => s,
            None => {
                return None;
            },
        };
        return Some(JsonSchema::Array { items: Box::new(inner), description });
    }
    if crate::items::string_is(ty, "object") {
        let n = ps.len();
        let mut i: usize = 0;
        while i < n && !(crate::items::string_is(&ps[i].0, "properties"))
            invariant
                i <= n,
                forall|k: int| 0 <= k < i ==> (#[trigger] gps[k]).0 != "properties"@,
            decreases n - i,
        {
            i = i + 1;
        }
        if i == n {
            proof {
                lemma_props_scan(gps, n as int);
            }
            return None;
        }
        let ghost gi = i as int;
        proof {
            lemma_props_scan(gps, gi);
            crate::json::lemma_first_key_idx_at(gps, "properties"@, 0, gi);
        }
        let props_vec: &Vec<(String, JsonValue)> = match &ps[i].1 {
            JsonValue::Object(pv) => pv,
            _ => {
                return None;
            },
        };
        let ghost ppvec = *props_vec;
        let ghost gprops = crate::json::view_obj(props_vec@);
        proof {
            crate::json::lemma_view_obj_index(props_vec@);
            lemma_all_props_index(gprops);
            assert(gps[gi].1 == crate::json::JsonVal::Object(gprops));
        }
        let mut out: Vec<(String, JsonSchema)> = Vec::new();
        let mut w: usize = 0;
        while w < props_vec.len()
            invariant
                w <= props_vec@.len(),
                out@.len() == w,
                forall|k: int| 0 <= k < w ==> schema_shape_ok((#[trigger] gprops[k]).1),
                forall|k: int|
                    0 <= k < w ==> (#[trigger] out@[k]).0@ == gprops[k].0 && schema_matches(
                        out@[k].1,
                        gprops[k].1,
                    ),
            decreases props_vec@.len() - w,
        {
            proof {
                assert(vv == JsonValue::Object(pvec));
                assert(decreases_to!(vv => pvec));
                vstd::std_specs::vec::axiom_vec_index_decreases(pvec, gi);
                assert(decreases_to!(pvec[gi] => pvec[gi].1));
                assert(pvec[gi].1 == JsonValue::Object(ppvec));
                assert(decreases_to!(pvec[gi].1 => ppvec));
                vstd::std_specs::vec::axiom_vec_index_decreases(ppvec, w as int);
                assert(decreases_to!(ppvec[w as int] => ppvec[w as int].1));
            }
            let s = match schema_from_json(&props_vec[w].1) {
                Some(s) => s,
                None => {
                    proof {
                        assert(gprops[w as int].1 == props_vec@[w as int].1@);
                        assert(!schema_shape_ok(gprops[w as int].1));
                        assert(!all_props_ok(gprops));
                        assert(!props_field_ok(gps));
                    }
                    return None;
                },
            };
            out.push((props_vec[w].0.clone(), s));
            w = w + 1;
        }
        let required: Option<Vec<String>> = match crate::json::obj_get(v, "required") {
            None => None,
            Some(JsonValue::Null) => None,
            Some(JsonValue::Array(_)) => {
                match crate::json::obj_str_list_field(v, "required") {
                    Some(xs) => Some(xs),
                    None => {
                        return None;
                    },
                }
            },
            Some(_) => {
                return None;
            },
        };
        let additional_properties: Option<bool> = match crate::json::obj_get(
            v,
            "additionalProperties",
        ) {
            None => None,
            Some(JsonValue::Null) => None,
            Some(JsonValue::Bool(b)) => Some(*b),
            Some(_) => {
                return None;
            },
        };
        proof {
            lemma_props_match_index(out@, gprops);
        }
        return Some(JsonSchema::Object { properties: out, required, additional_properties });
    }
    proof {
        reveal_strlit("boolean");
        reveal_strlit("string");
        reveal_strlit("number");
        reveal_strlit("integer");
        reveal_strlit("array");
        reveal_strlit("object");
    }
    None
}


/// A schema object without a `properties` member gets an empty one, as the
/// models require; anything else is left alone.
pub open spec fn ensure_properties_spec(v: crate::json::JsonVal) -> crate::json::JsonVal {
    match v {
        crate::json::JsonVal::Object(ps) => {
            if crate::json::first_key_idx(ps, "properties"@, 0) == -1 {
                crate::json::JsonVal::Object(
                    ps.push(("properties"@, crate::json::JsonVal::Object(Seq::empty()))),
                )
            } else {
                v
            }
        },
        _ => v,
    }
}

/// Add an empty `properties` member to a schema object that lacks one.
#[verifier::loop_isolation(false)]
pub fn ensure_properties(v: JsonValue) -> (r: JsonValue)
    ensures
        r@ == ensure_properties_spec(v@),
{
    match v {
        JsonValue::Object(mut ps) => {
            let ghost gps = crate::json::view_obj(ps@);
            proof {
                crate::json::lemma_view_obj_index(ps@);
            }
            let n = ps.len();
            let mut i: usize = 0;
            while i < n && !(crate::items::string_is(&ps[i].0, "properties"))
                invariant
                    i <= n,
                    forall|k: int| 0 <= k < i ==> (#[trigger] gps[k]).0 != "properties"@,
                decreases n - i,
            {
                i = i + 1;
            }
            if i < n {
                proof {
                    crate::json::lemma_first_key_idx_at(gps, "properties"@, 0, i as int);
                }
                JsonValue::Object(ps)
            } else {
                proof {
                    crate::json::lemma_first_key_idx_none(gps, "properties"@, 0);
                }
                let ghost ps0 = ps@;
                ps.push((String::from_str("properties"), JsonValue::Object(Vec::new())));
                proof {
                    crate::json::lemma_view_obj_index(ps@);
                    assert(crate::json::view_obj(Seq::<(String, JsonValue)>::empty())
                        =~= Seq::<(Seq<char>, crate::json::JsonVal)>::empty());
                    assert(crate::json::view_obj(ps@) =~= gps.push(
                        ("properties"@, crate::json::JsonVal::Object(Seq::empty())),
                    ));
                }
                JsonValue::Object(ps)
            }
        },
        other => other,
    }
}

/// Turn one external (MCP) tool into a function tool: the schema gets an
/// empty `properties` member when it lacks one, is sanitized, and is parsed
/// into the schema subset; a missing description becomes empty. Rejected
/// exactly when the sanitized schema is still not supported.
pub fn mcp_tool_to_openai_tool(
    fully_qualified_name: String,
    description: Option<String>,
    input_schema: JsonValue,
) -> (r: Option<ResponsesApiTool>)
    ensures
        r is Some <==> schema_shape_ok(
            crate::json::sanitize_spec(ensure_properties_spec(input_schema@)),
        ),
        (r matches Some(t) ==> {
            &&& t.name@ == fully_qualified_name@
            &&& t.description@ == (match description {
                Some(d) => d@,
                None => Seq::<char>::empty(),
            })
            &&& !t.strict
            &&& schema_matches(
                t.parameters,
                crate::json::sanitize_spec(ensure_properties_spec(input_schema@)),
            )
        }),
{
    let prepared = ensure_properties(input_schema);
    let sanitized = crate::json::sanitize_json_schema(prepared);
    let parameters = match schema_from_json(&sanitized) {
        Some(s) => s,
        None => {
            return None;
        },
    };
    let description = match description {
        Some(d) => d,
        None => String::new(),
    };
    Some(ResponsesApiTool { name: fully_qualified_name, description, strict: false, parameters })
}

} // verus!
