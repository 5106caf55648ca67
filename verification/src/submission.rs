//! The submission loop's decisions: which action each operation of the
//! session's submission queue demands, the merge of per-session override
//! context onto the previous turn settings, and the compact task's final
//! effect on the session state.

use vstd::prelude::*;

verus! {

use crate::items::last_assistant_messages;
use crate::session::SessionState;
use crate::tools::AskForApproval;
use crate::tools::SandboxPolicy;
use crate::tools::clone_sandbox_policy;
use crate::tools::sandbox_policy_matches;
use crate::turn::ReviewDecision;

/// The turn-context settings a submission may override.
#[derive(Debug)]
pub struct TurnSettings {
    pub model: String,
    pub cwd: String,
    pub approval_policy: AskForApproval,
    pub sandbox_policy: SandboxPolicy,
}

/// Per-submission overrides: a missing field keeps the previous setting.
#[derive(Debug)]
pub struct TurnOverrides {
    pub model: Option<String>,
    pub cwd: Option<String>,
    pub approval_policy: Option<AskForApproval>,
    pub sandbox_policy: Option<SandboxPolicy>,
}

/// Merge overrides onto the previous settings: each given field replaces the
/// previous one, each missing field is kept. The flag says whether an
/// environment-context item must be recorded: exactly when the cwd, approval
/// policy, or sandbox policy was overridden.
pub fn merge_turn_settings(prev: &TurnSettings, ov: TurnOverrides) -> (r: (TurnSettings, bool))
    ensures
        r.0.model@ == (match ov.model {
            Some(m) => m@,
            None => prev.model@,
        }),
        r.0.cwd@ == (match ov.cwd {
            Some(c) => c@,
            None => prev.cwd@,
        }),
        r.0.approval_policy == (match ov.approval_policy {
            Some(p) => p,
            None => prev.approval_policy,
        }),
        sandbox_policy_matches(r.0.sandbox_policy, match ov.sandbox_policy {
            Some(p) => p,
            None => prev.sandbox_policy,
        }),
        r.1 <==> (ov.cwd is Some || ov.approval_policy is Some || ov.sandbox_policy is Some),
{
    let record_env = ov.cwd.is_some() || ov.approval_policy.is_some()
        || ov.sandbox_policy.is_some();
    let model = match ov.model {
        Some(m) => m,
        None => prev.model.clone(),
    };
    let cwd = match ov.cwd {
        Some(c) => c,
        None => prev.cwd.clone(),
    };
    let approval_policy = match ov.approval_policy {
        Some(p) => p,
        None => prev.approval_policy,
    };
    let sandbox_policy = match ov.sandbox_policy {
        Some(p) => p,
        None => clone_sandbox_policy(&prev.sandbox_policy),
    };
    (TurnSettings { model, cwd, approval_policy, sandbox_policy }, record_env)
}

/// An operation of the submission queue.
#[derive(Debug)]
pub enum Op {
    Interrupt,
    OverrideTurnContext { overrides: TurnOverrides },
    UserInput,
    UserTurn,
    ExecApproval { id: String, decision: ReviewDecision },
    PatchApproval { id: String, decision: ReviewDecision },
    AddToHistory { text: String },
    GetHistoryEntryRequest { offset: usize, log_id: u64 },
    ListMcpTools,
    ListCustomPrompts,
    ListCustomCommands,
    Compact,
    Shutdown,
    GetHistory,
    Unknown,
}

/// What the loop does for one submission.
#[derive(Debug)]
pub enum SubmissionAction {
    InterruptTask,
    InstallContext { overrides: TurnOverrides },
    InjectOrSpawn,
    InjectOrSpawnFresh,
    ResolveApproval { id: String, decision: ReviewDecision },
    AppendHistory { text: String },
    LookupHistory { offset: usize, log_id: u64 },
    ReplyMcpTools,
    ReplyCustomPrompts,
    ReplyCustomCommands,
    SpawnCompact,
    FlushAndShutdown,
    ReplyHistory,
    Ignore,
}

/// Route one submission: each operation to its action; an approval decision
/// of `Abort` interrupts the task instead of resolving the approval; unknown
/// operations are ignored for forward compatibility.
pub fn submission_route(op: Op) -> (r: SubmissionAction)
    ensures
        r == (match op {
            Op::Interrupt => SubmissionAction::InterruptTask,
            Op::OverrideTurnContext { overrides } => (SubmissionAction::InstallContext {
                overrides,
            }),
            Op::UserInput => SubmissionAction::InjectOrSpawn,
            Op::UserTurn => SubmissionAction::InjectOrSpawnFresh,
            Op::ExecApproval { id, decision } => if decision == ReviewDecision::Abort {
                SubmissionAction::InterruptTask
            } else {
                (SubmissionAction::ResolveApproval { id, decision })
            },
            Op::PatchApproval { id, decision } => if decision == ReviewDecision::Abort {
                SubmissionAction::InterruptTask
            } else {
                (SubmissionAction::ResolveApproval { id, decision })
            },
            Op::AddToHistory { text } => (SubmissionAction::AppendHistory { text }),
            Op::GetHistoryEntryRequest { offset, log_id } => (SubmissionAction::LookupHistory {
                offset,
                log_id,
            }),
            Op::ListMcpTools => SubmissionAction::ReplyMcpTools,
            Op::ListCustomPrompts => SubmissionAction::ReplyCustomPrompts,
            Op::ListCustomCommands => SubmissionAction::ReplyCustomCommands,
            Op::Compact => SubmissionAction::SpawnCompact,
            Op::Shutdown => SubmissionAction::FlushAndShutdown,
            Op::GetHistory => SubmissionAction::ReplyHistory,
            Op::Unknown => SubmissionAction::Ignore,
        }),
{
    match op {
        Op::Interrupt => SubmissionAction::InterruptTask,
        Op::OverrideTurnContext { overrides } => SubmissionAction::InstallContext { overrides },
        Op::UserInput => SubmissionAction::InjectOrSpawn,
        Op::UserTurn => SubmissionAction::InjectOrSpawnFresh,
        Op::ExecApproval { id, decision } => {
            if matches!(decision, ReviewDecision::Abort) {
                SubmissionAction::InterruptTask
            } else {
                SubmissionAction::ResolveApproval { id, decision }
            }
        },
        Op::PatchApproval { id, decision } => {
            if matches!(decision, ReviewDecision::Abort) {
                SubmissionAction::InterruptTask
            } else {
                SubmissionAction::ResolveApproval { id, decision }
            }
        },
        Op::AddToHistory { text } => SubmissionAction::AppendHistory { text },
        Op::GetHistoryEntryRequest { offset, log_id } => SubmissionAction::LookupHistory {
            offset,
            log_id,
        },
        Op::ListMcpTools => SubmissionAction::ReplyMcpTools,
        Op::ListCustomPrompts => SubmissionAction::ReplyCustomPrompts,
        Op::ListCustomCommands => SubmissionAction::ReplyCustomCommands,
        Op::Compact => SubmissionAction::SpawnCompact,
        Op::Shutdown => SubmissionAction::FlushAndShutdown,
        Op::GetHistory => SubmissionAction::ReplyHistory,
        Op::Unknown => SubmissionAction::Ignore,
    }
}

/// End a compact task: the task slot is released and the history is
/// truncated to its last assistant message; nothing else of the session
/// state changes.
pub fn compact_finish(state: &mut SessionState, sub_id: &str)
    ensures
        final(state).history@ == last_assistant_messages(old(state).history@, 1),
        final(state).current_task == (match old(state).current_task {
            Some(cur) => if cur@ == sub_id@ {
                None::<String>
            } else {
                old(state).current_task
            },
            None => None::<String>,
        }),
        final(state).approved_commands == old(state).approved_commands,
        final(state).pending_approvals == old(state).pending_approvals,
        final(state).pending_input == old(state).pending_input,
{
    state.remove_task(sub_id);
    state.history.keep_last_messages(1);
}

} // verus!
