//! Commands invoked by starting a message with a leading slash, in the order
//! they are presented in the popup.

use vstd::prelude::*;

verus! {

use crate::items::string_is;

/// Commands that can be invoked by starting a message with a leading slash.
/// The declaration order is the presentation order in the popup, so more
/// frequently used commands come first.
#[derive(Debug, Clone, Copy, PartialEq, Eq, Structural)]
pub enum SlashCommand {
    Model,
    Approvals,
    New,
    Init,
    Compact,
    Diff,
    Mention,
    Agents,
    Agent,
    Status,
    Mcp,
    Logout,
    Quit,
}

/// The command string of each command, without the leading '/'.
pub open spec fn spec_command(c: SlashCommand) -> Seq<char> {
    match c {
        SlashCommand::Model => "model"@,
        SlashCommand::Approvals => "approvals"@,
        SlashCommand::New => "new"@,
        SlashCommand::Init => "init"@,
        SlashCommand::Compact => "compact"@,
        SlashCommand::Diff => "diff"@,
        SlashCommand::Mention => "mention"@,
        SlashCommand::Agents => "agents"@,
        SlashCommand::Agent => "agent"@,
        SlashCommand::Status => "status"@,
        SlashCommand::Mcp => "mcp"@,
        SlashCommand::Logout => "logout"@,
        SlashCommand::Quit => "quit"@,
    }
}

impl SlashCommand {
    /// User-visible description shown in the popup.
    pub fn description(self) -> (r: &'static str)
        ensures
            r@ == spec_description(self),
    {
        match self {
            SlashCommand::New => "start a new chat during a conversation",
            SlashCommand::Init => "create an AGENTS.md file with instructions for Codex",
            SlashCommand::Compact => "summarize conversation to prevent hitting the context limit",
            SlashCommand::Quit => "exit Codex",
            SlashCommand::Diff => "show git diff (including untracked files)",
            SlashCommand::Mention => "mention a file",
            SlashCommand::Agents => "list available sub-agents",
            SlashCommand::Agent => {
                "run a sub-agent with a specific task (usage: /agent <name> <task>)"
            },
            SlashCommand::Status => "show current session configuration and token usage",
            SlashCommand::Model => "choose what model and reasoning effort to use",
            SlashCommand::Approvals => "choose what Codex can do without approval",
            SlashCommand::Mcp => "list configured MCP tools",
            SlashCommand::Logout => "log out of Codex",
        }
    }

    /// Command string without the leading '/'.
    pub fn command(self) -> (r: &'static str)
        ensures
            r@ == spec_command(self),
    {
        match self {
            SlashCommand::Model => "model",
            SlashCommand::Approvals => "approvals",
            SlashCommand::New => "new",
            SlashCommand::Init => "init",
            SlashCommand::Compact => "compact",
            SlashCommand::Diff => "diff",
            SlashCommand::Mention => "mention",
            SlashCommand::Agents => "agents",
            SlashCommand::Agent => "agent",
            SlashCommand::Status => "status",
            SlashCommand::Mcp => "mcp",
            SlashCommand::Logout => "logout",
            SlashCommand::Quit => "quit",
        }
    }

    /// Whether this command can be run while a task is in progress.
    pub fn available_during_task(self) -> (r: bool)
        ensures
            r == spec_available_during_task(self),
    {
        match self {
            SlashCommand::New
            | SlashCommand::Init
            | SlashCommand::Compact
            | SlashCommand::Model
            | SlashCommand::Approvals
            | SlashCommand::Logout => false,
            SlashCommand::Diff
            | SlashCommand::Mention
            | SlashCommand::Agents
            | SlashCommand::Agent
            | SlashCommand::Status
            | SlashCommand::Mcp
            | SlashCommand::Quit => true,
        }
    }

    /// Parse a command string (without the leading '/').
    pub fn parse(s: &String) -> (r: Option<SlashCommand>)
        ensures
            match r {
                Some(c) => s@ == spec_command(c),
                None => forall|c: SlashCommand| s@ != spec_command(c),
            },
    {
        let all = built_in_slash_commands();
        let mut i: usize = 0;
        while i < all.len()
            invariant
                i <= all@.len(),
                all@.len() == 13,
                forall|k: int|
                    0 <= k < all@.len() ==> (#[trigger] all@[k]).0@ == spec_command(all@[k].1),
                forall|k: int| 0 <= k < i ==> s@ != spec_command(#[trigger] all@[k].1),
                forall|k: int|
                    0 <= k < all@.len() ==> (#[trigger] all@[k]).1 == spec_all_commands()[k],
            decreases all.len() - i,
        {
            let name = all[i].0;
            let other = String::from_str(name);
            if *s == other {
                return Some(all[i].1);
            }
            i = i + 1;
        }
        proof {
            assert forall|c: SlashCommand| s@ != spec_command(c) by {
                match c {
                    SlashCommand::Model => assert(s@ != spec_command(all@[0].1)),
                    SlashCommand::Approvals => assert(s@ != spec_command(all@[1].1)),
                    SlashCommand::New => assert(s@ != spec_command(all@[2].1)),
                    SlashCommand::Init => assert(s@ != spec_command(all@[3].1)),
                    SlashCommand::Compact => assert(s@ != spec_command(all@[4].1)),
                    SlashCommand::Diff => assert(s@ != spec_command(all@[5].1)),
                    SlashCommand::Mention => assert(s@ != spec_command(all@[6].1)),
                    SlashCommand::Agents => assert(s@ != spec_command(all@[7].1)),
                    SlashCommand::Agent => assert(s@ != spec_command(all@[8].1)),
                    SlashCommand::Status => assert(s@ != spec_command(all@[9].1)),
                    SlashCommand::Mcp => assert(s@ != spec_command(all@[10].1)),
                    SlashCommand::Logout => assert(s@ != spec_command(all@[11].1)),
                    SlashCommand::Quit => assert(s@ != spec_command(all@[12].1)),
                }
            }
        }
        None
    }
}

pub open spec fn spec_description(c: SlashCommand) -> Seq<char> {
    match c {
        SlashCommand::New => "start a new chat during a conversation"@,
        SlashCommand::Init => "create an AGENTS.md file with instructions for Codex"@,
        SlashCommand::Compact => "summarize conversation to prevent hitting the context limit"@,
        SlashCommand::Quit => "exit Codex"@,
        SlashCommand::Diff => "show git diff (including untracked files)"@,
        SlashCommand::Mention => "mention a file"@,
        SlashCommand::Agents => "list available sub-agents"@,
        SlashCommand::Agent => "run a sub-agent with a specific task (usage: /agent <name> <task>)"@,
        SlashCommand::Status => "show current session configuration and token usage"@,
        SlashCommand::Model => "choose what model and reasoning effort to use"@,
        SlashCommand::Approvals => "choose what Codex can do without approval"@,
        SlashCommand::Mcp => "list configured MCP tools"@,
        SlashCommand::Logout => "log out of Codex"@,
    }
}

pub open spec fn spec_available_during_task(c: SlashCommand) -> bool {
    match c {
        SlashCommand::New
        | SlashCommand::Init
        | SlashCommand::Compact
        | SlashCommand::Model
        | SlashCommand::Approvals
        | SlashCommand::Logout => false,
        SlashCommand::Diff
        | SlashCommand::Mention
        | SlashCommand::Agents
        | SlashCommand::Agent
        | SlashCommand::Status
        | SlashCommand::Mcp
        | SlashCommand::Quit => true,
    }
}

/// The built-in commands, in presentation order.
pub open spec fn spec_all_commands() -> Seq<SlashCommand> {
    seq![
        SlashCommand::Model,
        SlashCommand::Approvals,
        SlashCommand::New,
        SlashCommand::Init,
        SlashCommand::Compact,
        SlashCommand::Diff,
        SlashCommand::Mention,
        SlashCommand::Agents,
        SlashCommand::Agent,
        SlashCommand::Status,
        SlashCommand::Mcp,
        SlashCommand::Logout,
        SlashCommand::Quit,
    ]
}

/// All built-in commands paired with their command strings, in presentation
/// order.
pub fn built_in_slash_commands() -> (r: Vec<(&'static str, SlashCommand)>)
    ensures
        r@.len() == spec_all_commands().len(),
        forall|k: int| 0 <= k < r@.len() ==> (#[trigger] r@[k]).1 == spec_all_commands()[k],
        forall|k: int| 0 <= k < r@.len() ==> (#[trigger] r@[k]).0@ == spec_command(r@[k].1),

{
    let mut out: Vec<(&'static str, SlashCommand)> = Vec::new();
    out.push((SlashCommand::Model.command(), SlashCommand::Model));
    out.push((SlashCommand::Approvals.command(), SlashCommand::Approvals));
    out.push((SlashCommand::New.command(), SlashCommand::New));
    out.push((SlashCommand::Init.command(), SlashCommand::Init));
    out.push((SlashCommand::Compact.command(), SlashCommand::Compact));
    out.push((SlashCommand::Diff.command(), SlashCommand::Diff));
    out.push((SlashCommand::Mention.command(), SlashCommand::Mention));
    out.push((SlashCommand::Agents.command(), SlashCommand::Agents));
    out.push((SlashCommand::Agent.command(), SlashCommand::Agent));
    out.push((SlashCommand::Status.command(), SlashCommand::Status));
    out.push((SlashCommand::Mcp.command(), SlashCommand::Mcp));
    out.push((SlashCommand::Logout.command(), SlashCommand::Logout));
    out.push((SlashCommand::Quit.command(), SlashCommand::Quit));
    out
}

} // verus!
