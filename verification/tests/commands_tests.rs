use codex_core::commands::{
    command_from_markdown, merge_commands, CommandSource, CustomCommand, CustomCommandVisibility,
};

fn loaded(stem: &str, content: &str, project: bool) -> CustomCommand {
    let spec = command_from_markdown(stem, content).unwrap();
    CustomCommand {
        spec,
        path: format!("{stem}.md"),
        source: if project {
            CommandSource::Project(".codex/commands".to_string())
        } else {
            CommandSource::User(".codex/commands".to_string())
        },
    }
}

#[test]
fn load_single_command_from_markdown() {
    let content = "---\ndescription: Greet a user\naliases: [\"hi\", \"hello\"]\nargs:\n  - name: name\n    required: false\n---\nHello $1!\n";
    let spec = command_from_markdown("greet", content).unwrap();
    assert_eq!(spec.id.0, "greet");
    assert_eq!(spec.name, "greet");
    assert_eq!(spec.description, "Greet a user");
    assert_eq!(spec.aliases, vec!["hi", "hello"]);
    assert_eq!(spec.template.trim(), "Hello $1!");
    assert!(!spec.disabled);
    assert_eq!(spec.visibility, CustomCommandVisibility::Popup);
    assert_eq!(spec.args.len(), 1);
    assert_eq!(spec.args[0].name, "name");
    assert!(!spec.args[0].required);
}

#[test]
fn invalid_command_files_are_rejected() {
    // Missing frontmatter.
    assert!(command_from_markdown("bad1", "no frontmatter").is_err());
    // Empty body.
    assert!(command_from_markdown("bad2", "---\ndescription: test\n---\n\n\n").is_err());
    // Valid.
    let ok = command_from_markdown("ok", "---\ndescription: ok\n---\nbody\n").unwrap();
    assert_eq!(ok.id.0, "ok");
}

#[test]
fn command_ids_are_normalized_from_filenames() {
    let spec = command_from_markdown("My Command", "---\ndescription: d\n---\nbody\n").unwrap();
    assert_eq!(spec.id.0, "my-command");
    assert_eq!(spec.name, "My Command");
}

#[test]
fn project_commands_override_user_commands() {
    let user = vec![
        loaded("greet", "---\ndescription: user desc\n---\nUser template\n", false),
        loaded("alpha", "---\ndescription: a\n---\nA\n", false),
    ];
    let project = vec![loaded(
        "greet",
        "---\ndescription: project desc\n---\nProject template\n",
        true,
    )];

    let merged = merge_commands(user, project);
    assert_eq!(merged.len(), 2);
    // Sorted by id for determinism.
    assert_eq!(merged[0].spec.id.0, "alpha");
    assert_eq!(merged[1].spec.id.0, "greet");
    assert_eq!(merged[1].spec.description, "project desc");
    assert_eq!(merged[1].spec.template.trim(), "Project template");
}

#[test]
fn hidden_visibility_is_parsed() {
    let spec = command_from_markdown(
        "quiet",
        "---\ndescription: d\nvisibility: hidden\ndisabled: true\n---\nbody\n",
    )
    .unwrap();
    assert_eq!(spec.visibility, CustomCommandVisibility::Hidden);
    assert!(spec.disabled);
}
