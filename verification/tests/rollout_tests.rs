use codex_core::items::{Origin, ResponseItem};
use codex_core::rollout::{
    filter_persisted, is_persisted_response_item, list_page, parse_rollout_filename, parse_ts,
    SessionKey,
};
use codex_core::session::SessionState;

#[test]
fn test_subagent_events_are_persisted() {
    let subagent_start = ResponseItem::SubAgentStart {
        name: "code-checker".to_string(),
        description: "Inspects code for quality".to_string(),
        origin: Some(Origin::Main),
    };
    assert!(is_persisted_response_item(&subagent_start));

    let subagent_end = ResponseItem::SubAgentEnd {
        name: "code-checker".to_string(),
        success: true,
        origin: Some(Origin::Main),
    };
    assert!(is_persisted_response_item(&subagent_end));

    let subagent_end_failed = ResponseItem::SubAgentEnd {
        name: "analyzer".to_string(),
        success: false,
        origin: Some(Origin::SubAgent {
            name: "parent-agent".to_string(),
        }),
    };
    assert!(is_persisted_response_item(&subagent_end_failed));
}

#[test]
fn test_subagent_events_with_different_origins() {
    let main_start = ResponseItem::SubAgentStart {
        name: "main-agent".to_string(),
        description: "Started from main".to_string(),
        origin: Some(Origin::Main),
    };
    assert!(is_persisted_response_item(&main_start));

    let nested_start = ResponseItem::SubAgentStart {
        name: "nested-agent".to_string(),
        description: "Started from another sub-agent".to_string(),
        origin: Some(Origin::SubAgent {
            name: "parent-agent".to_string(),
        }),
    };
    assert!(is_persisted_response_item(&nested_start));

    let no_origin_end = ResponseItem::SubAgentEnd {
        name: "orphan-agent".to_string(),
        success: true,
        origin: None,
    };
    assert!(is_persisted_response_item(&no_origin_end));
}

#[test]
fn rollout_projection_drops_unpersisted_items() {
    let items = vec![
        ResponseItem::Other,
        ResponseItem::WebSearchCall {
            call_id: "w1".to_string(),
        },
        ResponseItem::Other,
    ];
    let kept = filter_persisted(items);
    assert_eq!(kept.len(), 1);
    assert!(matches!(kept[0], ResponseItem::WebSearchCall { .. }));
}

#[test]
fn history_and_rollout_stay_aligned() {
    // History keeps everything in append order; the rollout is its
    // projection under the persistence policy, batch after batch.
    let mut state = SessionState::new();
    let mut rollout: Vec<ResponseItem> = Vec::new();

    let batch1 = vec![
        ResponseItem::WebSearchCall {
            call_id: "w1".to_string(),
        },
        ResponseItem::Other,
    ];
    rollout.extend(filter_persisted(batch1.clone()));
    state.history.record_items(batch1);

    let batch2 = vec![ResponseItem::SubAgentStart {
        name: "docs".to_string(),
        description: "t".to_string(),
        origin: Some(Origin::Main),
    }];
    rollout.extend(filter_persisted(batch2.clone()));
    state.history.record_items(batch2);

    assert_eq!(state.history.len(), 3);
    assert_eq!(rollout.len(), 2);
    // The rollout equals the projection of the full history.
    let full: Vec<ResponseItem> = state.history.contents().clone();
    assert_eq!(filter_persisted(full), rollout);
}

fn key(ts: u64, uuid: &str) -> SessionKey {
    SessionKey {
        ts,
        uuid: uuid.to_string(),
    }
}

#[test]
fn pagination_is_newest_first_and_cursor_excludes_anchor() {
    let entries = vec![
        key(20250101120000, "00000000-0000-0000-0000-000000000001"),
        key(20250103120000, "00000000-0000-0000-0000-000000000003"),
        key(20250102120000, "00000000-0000-0000-0000-000000000002"),
    ];
    let page1 = list_page(&entries, 2, None);
    assert_eq!(page1.len(), 2);
    assert_eq!(page1[0].ts, 20250103120000);
    assert_eq!(page1[1].ts, 20250102120000);

    let cursor = page1.last().unwrap().clone();
    let page2 = list_page(&entries, 2, Some(&cursor));
    assert_eq!(page2.len(), 1);
    assert_eq!(page2[0].ts, 20250101120000);
    // The anchor itself never reappears.
    assert!(page2.iter().all(|k| k.ts != cursor.ts || k.uuid != cursor.uuid));
}

#[test]
fn pagination_is_stable_within_one_second() {
    // Same timestamp: the uuid text breaks the tie, newest-first.
    let ts = 20250701000000;
    let entries = vec![
        key(ts, "00000000-0000-0000-0000-000000000001"),
        key(ts, "00000000-0000-0000-0000-000000000002"),
        key(ts, "00000000-0000-0000-0000-000000000003"),
    ];
    let page1 = list_page(&entries, 2, None);
    assert_eq!(page1[0].uuid, "00000000-0000-0000-0000-000000000003");
    assert_eq!(page1[1].uuid, "00000000-0000-0000-0000-000000000002");

    let cursor = page1.last().unwrap().clone();
    let page2 = list_page(&entries, 2, Some(&cursor));
    assert_eq!(page2.len(), 1);
    assert_eq!(page2[0].uuid, "00000000-0000-0000-0000-000000000001");
}

#[test]
fn parses_rollout_filename_and_timestamp() {
    let k = parse_rollout_filename(
        "rollout-2025-01-03T12-00-00-00000000-0000-0000-0000-000000000003.jsonl",
    )
    .unwrap();
    assert_eq!(k.ts, 20250103120000);
    assert_eq!(k.uuid, "00000000-0000-0000-0000-000000000003");

    assert!(parse_rollout_filename("rollout-garbage.jsonl").is_none());
    assert!(parse_rollout_filename("other-2025-01-03T12-00-00-x.jsonl").is_none());

    assert_eq!(parse_ts("2025-01-03T12-00-00"), Some(20250103120000));
    assert_eq!(parse_ts("2025-01-03 12:00:00"), None);
}
