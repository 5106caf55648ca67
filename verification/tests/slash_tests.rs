use codex_core::slash::{built_in_slash_commands, SlashCommand};

#[test]
fn test_agents_slash_command() {
    // The agents command exists and has the expected properties.
    let agents_cmd = SlashCommand::Agents;
    assert_eq!(agents_cmd.command(), "agents");
    assert_eq!(agents_cmd.description(), "list available sub-agents");
    assert!(agents_cmd.available_during_task());
}

#[test]
fn test_agent_slash_command() {
    let agent_cmd = SlashCommand::Agent;
    assert_eq!(agent_cmd.command(), "agent");
    assert_eq!(
        agent_cmd.description(),
        "run a sub-agent with a specific task (usage: /agent <name> <task>)"
    );
    assert!(agent_cmd.available_during_task());
}

#[test]
fn test_slash_command_parsing() {
    assert_eq!(
        SlashCommand::parse(&"agents".to_string()).unwrap(),
        SlashCommand::Agents
    );
    assert_eq!(
        SlashCommand::parse(&"agent".to_string()).unwrap(),
        SlashCommand::Agent
    );

    assert_eq!(SlashCommand::Agents.command(), "agents");
    assert_eq!(SlashCommand::Agent.command(), "agent");
    assert!(SlashCommand::parse(&"not-a-command".to_string()).is_none());
}

#[test]
fn test_built_in_slash_commands_includes_subagent_commands() {
    let commands = built_in_slash_commands();
    let command_names: Vec<&str> = commands.iter().map(|(name, _)| *name).collect();

    assert!(command_names.contains(&"agents"));
    assert!(command_names.contains(&"agent"));

    let agents_entry = commands.iter().find(|(name, _)| *name == "agents").unwrap();
    let agent_entry = commands.iter().find(|(name, _)| *name == "agent").unwrap();

    assert_eq!(agents_entry.1, SlashCommand::Agents);
    assert_eq!(agent_entry.1, SlashCommand::Agent);
}

#[test]
fn test_slash_command_availability() {
    assert!(SlashCommand::Agents.available_during_task());
    assert!(SlashCommand::Agent.available_during_task());

    assert!(!SlashCommand::New.available_during_task());
    assert!(!SlashCommand::Model.available_during_task());
}

#[test]
fn test_enum_iteration_includes_subagent_commands() {
    let all_commands: Vec<SlashCommand> =
        built_in_slash_commands().into_iter().map(|(_, c)| c).collect();

    assert!(all_commands.contains(&SlashCommand::Agents));
    assert!(all_commands.contains(&SlashCommand::Agent));

    let agents_pos = all_commands
        .iter()
        .position(|&c| c == SlashCommand::Agents)
        .unwrap();
    let agent_pos = all_commands
        .iter()
        .position(|&c| c == SlashCommand::Agent)
        .unwrap();
    let status_pos = all_commands
        .iter()
        .position(|&c| c == SlashCommand::Status)
        .unwrap();

    assert!(agents_pos < status_pos);
    assert!(agent_pos < status_pos);
    assert_eq!(agent_pos, agents_pos + 1);
}

#[test]
fn test_slash_command_descriptions() {
    assert!(SlashCommand::Agents.description().contains("sub-agents"));
    assert!(SlashCommand::Agent.description().contains("sub-agent"));
    assert!(SlashCommand::Agent.description().contains("usage:"));
    assert!(SlashCommand::Agent.description().contains("/agent"));

    for (_, cmd) in built_in_slash_commands() {
        assert!(
            !cmd.description().is_empty(),
            "Command {:?} has empty description",
            cmd
        );
    }
}
