use codex_core::items::{ContentItem, ResponseItem};
use codex_core::session::SessionState;

fn user_message(text: &str) -> ResponseItem {
    ResponseItem::Message {
        id: None,
        role: "user".to_string(),
        content: vec![ContentItem::InputText {
            text: text.to_string(),
        }],
        origin: None,
    }
}

#[test]
fn second_spawn_aborts_exactly_the_prior_task() {
    let mut state = SessionState::new();
    assert_eq!(state.set_task("sub-1".to_string()), None);
    // The replacement hands back exactly the prior task's id, for one
    // turn-aborted event.
    assert_eq!(state.set_task("sub-2".to_string()), Some("sub-1".to_string()));
    assert_eq!(state.current_task, Some("sub-2".to_string()));
}

#[test]
fn remove_task_only_drops_its_own_id() {
    let mut state = SessionState::new();
    state.set_task("sub-1".to_string());
    state.remove_task("other");
    assert_eq!(state.current_task, Some("sub-1".to_string()));
    state.remove_task("sub-1");
    assert_eq!(state.current_task, None);
}

#[test]
fn inject_input_queues_only_while_task_runs() {
    let mut state = SessionState::new();
    // No task: input comes back to be spawned as a new task.
    let back = state.inject_input(user_message("hi"));
    assert!(back.is_err());

    state.set_task("sub-1".to_string());
    assert!(state.inject_input(user_message("hi")).is_ok());
    assert!(state.inject_input(user_message("again")).is_ok());

    let pending = state.get_pending_input();
    assert_eq!(pending.len(), 2);
    assert!(state.get_pending_input().is_empty());
}

#[test]
fn approved_commands_form_a_set() {
    let mut state = SessionState::new();
    let cmd = vec!["git".to_string(), "init".to_string()];
    state.add_approved_command(cmd.clone());
    state.add_approved_command(cmd.clone());
    assert_eq!(state.approved_commands.len(), 1);
    assert!(state.is_command_approved(&cmd));
    assert!(!state.is_command_approved(&vec!["rm".to_string()]));
}

#[test]
fn interrupt_clears_approvals_and_input() {
    let mut state = SessionState::new();
    state.set_task("sub-1".to_string());
    state.push_pending_approval("sub-1".to_string());
    state.inject_input(user_message("queued")).unwrap();

    let aborted = state.interrupt_task();
    assert_eq!(aborted, Some("sub-1".to_string()));
    assert!(state.pending_approvals.is_empty());
    assert!(state.pending_input.is_empty());
    assert_eq!(state.current_task, None);
}

#[test]
fn pending_approval_resolution() {
    let mut state = SessionState::new();
    assert!(!state.push_pending_approval("s1".to_string()));
    assert!(state.push_pending_approval("s1".to_string()));
    assert!(state.take_pending_approval("s1"));
    assert!(!state.take_pending_approval("s1"));
}

#[test]
fn compact_keeps_last_assistant_message() {
    let mut state = SessionState::new();
    state.history.record_items(vec![
        user_message("question"),
        ResponseItem::Message {
            id: None,
            role: "assistant".to_string(),
            content: vec![ContentItem::OutputText {
                text: "first answer".to_string(),
            }],
            origin: None,
        },
        ResponseItem::Message {
            id: None,
            role: "assistant".to_string(),
            content: vec![ContentItem::OutputText {
                text: "summary".to_string(),
            }],
            origin: None,
        },
    ]);
    state.history.keep_last_messages(1);
    let kept = state.history.contents();
    assert_eq!(kept.len(), 1);
    match &kept[0] {
        ResponseItem::Message { role, content, .. } => {
            assert_eq!(role, "assistant");
            assert_eq!(
                content,
                &vec![ContentItem::OutputText {
                    text: "summary".to_string()
                }]
            );
        }
        other => panic!("expected the last assistant message, got {:?}", other),
    }
}
