//! WorkBuddy: from the event log and the database to what shows.
use agent_deck::json::Json;
use agent_deck::protocol::{BackendId, DeckStatus, ProjectCategory, Risk};
use agent_deck::text_map::TextMap;
use agent_deck::workbuddy::db_meta::{
    automation_names, classify_workspace, index_meta, is_archived, is_claw_workspace,
    name_folders, normalize_path, older_session_queries, path_parts, preferred_title, row_meta,
    SessionMeta, SessionRow, SESSIONS_NO_FLAG_SQL, SESSIONS_OLDEST_SQL,
};
use agent_deck::workbuddy::mapper::{
    aggregate, aggregate_with, approval_flag, infer_risk, infer_status, map_session,
    risk_of_lower, SessionEvent, SessionSignals, ACTIVE_WINDOW_MS, STREAMING_WINDOW_MS,
    WAITING_WINDOW_MS,
};
use agent_deck::workbuddy::observer::{
    session_of_file, JsonlObserver, JsonlObserverOptions, ObserverError, Scan, SessionFile,
};

fn ev(event_type: &str, ts: u64) -> SessionEvent {
    SessionEvent {
        timestamp: ts,
        event_type: event_type.into(),
        ai_title: None,
        custom_title: None,
        title: None,
        session_id: None,
        cwd: None,
        call_id: None,
        name: None,
        status: None,
        arguments: None,
        role: None,
    }
}

fn user(ts: u64) -> SessionEvent {
    let mut e = ev("message", ts);
    e.role = Some("user".into());
    e
}

fn assistant(ts: u64, status: &str) -> SessionEvent {
    let mut e = ev("message", ts);
    e.role = Some("assistant".into());
    e.status = Some(status.into());
    e
}

/// The signals of a log that was last written at a given time.
fn agg(events: &[SessionEvent], id: &str, file_mtime_ms: Option<u64>) -> SessionSignals {
    aggregate(events, id, file_mtime_ms)
}

#[test]
fn working_when_pending_unapproved_call() {
    let now = 10_000_000;
    let mut e = ev("function_call", now - 1_000);
    e.call_id = Some("c1".into());
    e.name = Some("Bash".into());
    e.status = Some("running".into());
    let s = agg(&[e], "s1", Some(now - 60_000));
    assert_eq!(infer_status(&s, now), DeckStatus::Working);
    assert!(s.pending_tool_at.is_some());
    assert!(s.pending_approval_at.is_none());
}

#[test]
fn working_when_assistant_message_is_incomplete() {
    let now = 10_000_000;
    let events = vec![
        user(now - 30_000),
        assistant(now - 5_000, "incomplete"),
    ];
    let s = agg(&events, "s1", Some(now - 1_000));
    assert!(s.last_assistant_incomplete);
    assert_eq!(infer_status(&s, now), DeckStatus::Working);
}

#[test]
fn working_when_user_just_spoke_and_no_reply_yet() {
    let now = 10_000_000;
    let events = vec![
        user(now - 120_000),
        assistant(now - 100_000, "completed"),
        user(now - 2_000),
        ev("file-history-snapshot", now - 1_500),
    ];
    let s = agg(&events, "s1", Some(now - 1_000));
    assert_eq!(infer_status(&s, now), DeckStatus::Working);
}

#[test]
fn working_when_user_speaks_into_done_session() {
    let now = 10_000_000;
    let events = vec![
        user(now - 200_000),
        assistant(now - 180_000, "completed"),
        user(now - 3_000),
    ];
    let s = agg(&events, "s1", Some(now - 1_000));
    assert_eq!(infer_status(&s, now), DeckStatus::Working);
}

#[test]
fn waiting_when_pending_call_requests_approval() {
    let now = 10_000_000;
    let mut e = ev("function_call", now - 1_000);
    e.call_id = Some("c1".into());
    e.name = Some("Bash".into());
    e.arguments = Some(r#"{"command":"rm -rf /","requires_approval":true}"#.into());
    let s = agg(&[e], "s1", Some(now));
    assert_eq!(infer_status(&s, now), DeckStatus::Waiting);
    assert_eq!(s.detail.as_deref(), Some("Bash"));
}

#[test]
fn waiting_survives_longer_than_active_tool_window() {
    let now = 10_000_000;
    let mut e = ev("function_call", now - 10 * 60 * 1000);
    e.call_id = Some("c1".into());
    e.name = Some("Bash".into());
    e.arguments = Some(r#"{"requires_approval":true}"#.into());
    let s = agg(&[e], "s1", Some(now - 10 * 60 * 1000));
    assert_eq!(infer_status(&s, now), DeckStatus::Waiting);
}

#[test]
fn done_when_assistant_just_completed() {
    let now = 10_000_000;
    let events = vec![
        user(now - 60_000),
        assistant(now - 5_000, "completed"),
    ];
    let s = agg(&events, "s1", Some(now - 5_000));
    assert_eq!(infer_status(&s, now), DeckStatus::Done);
}

#[test]
fn completed_stays_done_without_mapper_ttl() {
    let now = 100_000_000;
    let completed_at = now - 10 * 60 * 60 * 1000;
    let events = vec![
        user(completed_at - 60_000),
        assistant(completed_at, "completed"),
    ];
    let s = agg(&events, "s1", Some(completed_at));
    assert_eq!(infer_status(&s, now), DeckStatus::Done);
}

#[test]
fn interrupted_incomplete_becomes_done_not_working() {
    let now = 10_000_000;
    let freeze = now - 45_000;
    let events = vec![user(freeze - 10_000), assistant(freeze, "incomplete")];
    let s = agg(&events, "s1", Some(freeze));
    assert!(s.last_assistant_incomplete);
    assert_eq!(infer_status(&s, now), DeckStatus::Done);
}

#[test]
fn old_completed_conversation_is_done_not_idle() {
    let now = 10_000_000;
    let events = vec![
        user(now - 600_000),
        assistant(now - 500_000, "completed"),
    ];
    let s = agg(&events, "s1", Some(now - 500_000));
    assert_eq!(infer_status(&s, now), DeckStatus::Done);
}

#[test]
fn idle_when_no_assistant_at_all() {
    let now = 10_000_000;
    let mut e = ev("ai-title", now - 1_000);
    e.ai_title = Some("hello".into());
    let s = agg(&[e], "s1", Some(now - 1_000));
    assert_eq!(infer_status(&s, now), DeckStatus::Idle);
}

#[test]
fn zombie_pending_tool_ages_out_to_done_when_completed() {
    let now = 10_000_000;
    let mut e = ev("function_call", now - 10 * ACTIVE_WINDOW_MS);
    e.call_id = Some("c1".into());
    e.name = Some("Bash".into());
    let a = assistant(now - 10 * ACTIVE_WINDOW_MS, "completed");
    let s = agg(&[e, a], "s1", Some(now - 10 * ACTIVE_WINDOW_MS));
    assert!(s.pending_tool_at.is_some());
    assert_eq!(infer_status(&s, now), DeckStatus::Done);
}

#[test]
fn stranded_incomplete_becomes_done_not_working() {
    let now = 10_000_000;
    let events = vec![
        user(now - 20 * ACTIVE_WINDOW_MS),
        assistant(now - 20 * ACTIVE_WINDOW_MS, "incomplete"),
    ];
    let s = agg(&events, "s1", Some(now - 20 * ACTIVE_WINDOW_MS));
    assert!(s.last_assistant_incomplete);
    assert_eq!(infer_status(&s, now), DeckStatus::Done);
}

#[test]
fn completed_call_does_not_count_as_pending() {
    let now = 10_000_000;
    let mut e = ev("function_call", now - 10 * ACTIVE_WINDOW_MS);
    e.call_id = Some("c1".into());
    e.name = Some("Bash".into());
    e.status = Some("completed".into());
    let s = agg(&[e], "s1", Some(now - 10 * ACTIVE_WINDOW_MS));
    assert!(s.pending_tool_at.is_none());
}

#[test]
fn call_resolved_by_result_does_not_count_as_pending() {
    let now = 10_000_000;
    let mut call = ev("function_call", now - 60_000);
    call.call_id = Some("c1".into());
    call.name = Some("Read".into());
    let mut result = ev("function_call_result", now - 59_000);
    result.call_id = Some("c1".into());
    let s = agg(&[call, result], "s1", Some(now - 59_000));
    assert!(s.pending_tool_at.is_none());
    assert!(s.pending_approval_at.is_none());
}

#[test]
fn last_assistant_wins_over_older_incomplete() {
    let now = 10_000_000;
    let events = vec![
        user(now - 30_000),
        assistant(now - 20_000, "incomplete"),
        assistant(now - 5_000, "completed"),
    ];
    let s = agg(&events, "s1", Some(now - 5_000));
    assert!(!s.last_assistant_incomplete);
    assert_eq!(infer_status(&s, now), DeckStatus::Done);
}

#[test]
fn completed_reply_after_user_is_done_not_idle() {
    let now = 10_000_000;
    let events = vec![
        user(now - 30_000),
        assistant(now - 5_000, "completed"),
    ];
    let s = agg(&events, "s1", Some(now - 5_000));
    assert_eq!(infer_status(&s, now), DeckStatus::Done);
}

#[test]
fn title_prefers_custom_over_ai() {
    let mut ai = ev("ai-title", 100);
    ai.ai_title = Some("AI guess".into());
    let mut custom = ev("custom-title", 200);
    custom.custom_title = Some("My title".into());
    let s = agg(&[ai, custom], "s1", Some(200));
    assert_eq!(s.title.as_deref(), Some("My title"));
}

#[test]
fn title_rename_overrides_previous_ai_title() {
    let mut ai = ev("ai-title", 100);
    ai.ai_title = Some("打招呼".into());
    let mut custom = ev("custom-title", 300);
    custom.custom_title = Some("新名字".into());
    let s = agg(&[ai, custom], "s1", Some(300));
    assert_eq!(s.title.as_deref(), Some("新名字"));
}

#[test]
fn later_ai_title_updates_when_no_custom() {
    let mut a1 = ev("ai-title", 100);
    a1.ai_title = Some("旧标题".into());
    let mut a2 = ev("ai-title", 200);
    a2.ai_title = Some("新标题".into());
    let s = agg(&[a1, a2], "s1", Some(200));
    assert_eq!(s.title.as_deref(), Some("新标题"));
}

#[test]
fn custom_title_legacy_title_field_still_works() {
    let mut custom = ev("custom-title", 100);
    custom.title = Some("legacy field".into());
    let s = agg(&[custom], "s1", Some(100));
    assert_eq!(s.title.as_deref(), Some("legacy field"));
}

#[test]
fn workspace_path_takes_latest_cwd() {
    let mut e1 = ev("message", 100);
    e1.cwd = Some("/tmp/old".into());
    let mut e2 = ev("message", 200);
    e2.cwd = Some("/Users/munich/WorkBuddy/2026-07-23-16-37-26".into());
    let s = agg(&[e1, e2], "s1", Some(200));
    assert_eq!(
        s.workspace_path.as_deref(),
        Some("/Users/munich/WorkBuddy/2026-07-23-16-37-26")
    );
}

#[test]
fn workspace_path_taken_from_cwd() {
    let mut e = ev("message", 100);
    e.cwd = Some("/Users/x/WorkBuddy/proj".into());
    let s = agg(&[e], "s1", Some(100));
    assert_eq!(
        s.workspace_path.as_deref(),
        Some("/Users/x/WorkBuddy/proj")
    );
}

#[test]
fn risk_heuristics() {
    assert_eq!(infer_risk(Some("Bash")), Risk::High);
    assert_eq!(infer_risk(Some("Edit")), Risk::High);
    assert_eq!(infer_risk(Some("Read")), Risk::Low);
    assert_eq!(infer_risk(Some("Grep")), Risk::Low);
    assert_eq!(infer_risk(Some("WebFetch")), Risk::Medium);
    assert_eq!(infer_risk(None), Risk::Medium);
}

#[test]
fn map_session_sets_workbuddy_backend() {
    let now = 10_000_000;
    let mut e = ev("ai-title", now - 1_000);
    e.ai_title = Some("hello".into());
    e.cwd = Some("/tmp/p".into());
    let s = agg(&[e], "s1", Some(now - 1_000));
    let snap = map_session(&s, now);
    assert_eq!(snap.backend, BackendId::Workbuddy);
    assert_eq!(snap.session_id, "s1");
    assert_eq!(snap.title, "hello");
    assert_eq!(snap.workspace_path.as_deref(), Some("/tmp/p"));
    assert_eq!(snap.status, DeckStatus::Idle);
}

#[test]
fn map_session_streaming_is_working() {
    let now = 10_000_000;
    let events = vec![user(now - 5_000), assistant(now - 1_000, "incomplete")];
    let s = agg(&events, "brainfog", Some(now - 500));
    let snap = map_session(&s, now);
    assert_eq!(snap.status, DeckStatus::Working);
    assert_eq!(snap.session_id, "brainfog");
}

#[test]
fn classify_task_uses_title() {
    let meta = SessionMeta {
        title: Some("打招呼".into()),
        custom_title: Some("ai 趋势".into()),
        cwd: Some("/Users/x/WorkBuddy/2026-07-23-16-37-26".into()),
        is_playground: true,
        is_background_automation: false,
        ..Default::default()
    };
    let (cat, label) = classify_workspace(
        meta.cwd.as_deref(),
        Some(&meta),
        &TextMap::new(),
        "打招呼",
    );
    assert_eq!(cat, ProjectCategory::Task);
    assert_eq!(label, "ai 趋势");
}

#[test]
fn classify_automation_prefers_table_name() {
    let mut names = TextMap::new();
    names.insert(
        "/Users/x/WorkBuddy/automation-2026-07-17-10-27-12".into(),
        "nvidia 日报".into(),
    );
    let meta = SessionMeta {
        title: None,
        custom_title: Some("nvidia".into()),
        cwd: Some("/Users/x/WorkBuddy/automation-2026-07-17-10-27-12".into()),
        is_playground: false,
        is_background_automation: true,
        ..Default::default()
    };
    let (cat, label) = classify_workspace(
        meta.cwd.as_deref(),
        Some(&meta),
        &names,
        "(untitled)",
    );
    assert_eq!(cat, ProjectCategory::Automation);
    assert_eq!(label, "nvidia 日报");
}

#[test]
fn classify_project_uses_folder_leaf() {
    let meta = SessionMeta {
        title: Some("打招呼".into()),
        custom_title: None,
        cwd: Some("/Users/x/WorkBuddy/workbuddy 测试文件夹".into()),
        is_playground: false,
        is_background_automation: false,
        ..Default::default()
    };
    let (cat, label) = classify_workspace(
        meta.cwd.as_deref(),
        Some(&meta),
        &TextMap::new(),
        "打招呼",
    );
    assert_eq!(cat, ProjectCategory::Project);
    assert_eq!(label, "workbuddy 测试文件夹");
}

#[test]
fn classify_project_with_stray_automation_flag() {
    let meta = SessionMeta {
        cwd: Some("/Users/x/WorkBuddy/Claw".into()),
        is_background_automation: true,
        ..Default::default()
    };
    let (cat, _) = classify_workspace(meta.cwd.as_deref(), Some(&meta), &TextMap::new(), "");
    assert_eq!(cat, ProjectCategory::Project);
}

#[test]
fn is_archived_case_insensitive() {
    let meta = SessionMeta {
        status: Some("Archived".into()),
        ..Default::default()
    };
    assert!(is_archived(&meta));
    let meta2 = SessionMeta {
        status: Some("completed".into()),
        ..Default::default()
    };
    assert!(!is_archived(&meta2));
}

#[test]
fn claw_workspace_detected_case_insensitive() {
    assert!(is_claw_workspace(Some("/Users/x/WorkBuddy/Claw")));
    assert!(is_claw_workspace(Some("/Users/x/workbuddy/claw")));
    assert!(!is_claw_workspace(Some("/Users/x/Desktop/Claw")));
    assert!(!is_claw_workspace(Some("/Users/x/WorkBuddy/mini-02")));
    assert!(!is_claw_workspace(None));
}

// Windows, from both sides.

#[test]
fn windows_end_where_they_should() {
    let at = 1_000_000u64;
    let mut call = ev("function_call", at);
    call.call_id = Some("c1".into());
    let s = agg(&[call], "s", Some(at));
    assert_eq!(infer_status(&s, at + ACTIVE_WINDOW_MS), DeckStatus::Working);
    assert_eq!(infer_status(&s, at + ACTIVE_WINDOW_MS + 1), DeckStatus::Idle);

    let mut ask = ev("function_call", at);
    ask.call_id = Some("c2".into());
    ask.arguments = Some("{\"requires_approval\":true}".into());
    let s = agg(&[ask], "s", Some(at));
    assert_eq!(infer_status(&s, at + WAITING_WINDOW_MS), DeckStatus::Waiting);
    assert_eq!(infer_status(&s, at + WAITING_WINDOW_MS + 1), DeckStatus::Idle);

    let s = agg(&[user(at - 1), assistant(at, "incomplete")], "s", Some(at));
    assert_eq!(infer_status(&s, at + STREAMING_WINDOW_MS), DeckStatus::Working);
    assert_eq!(infer_status(&s, at + STREAMING_WINDOW_MS + 1), DeckStatus::Done);
}

#[test]
fn approval_is_read_from_the_arguments() {
    let doc = |v: Json| Some(Json::Object(vec![("requires_approval".to_string(), v)]));
    assert!(approval_flag(&doc(Json::Bool(true))));
    assert!(!approval_flag(&doc(Json::Bool(false))));
    assert!(!approval_flag(&doc(Json::Text("true".into()))));
    assert!(!approval_flag(&Some(Json::Null)));
    assert!(!approval_flag(&None));
    for (arguments, waits) in [
        ("{\"requires_approval\":true}", true),
        ("{\"requires_approval\":false}", false),
        ("{\"requires_approval\":1}", false),
        ("not json", false),
        ("[true]", false),
    ] {
        let mut e = ev("function_call", 500);
        e.call_id = Some("c".into());
        e.arguments = Some(arguments.into());
        let s = agg(&[e], "s", None);
        assert_eq!(s.pending_approval_at.is_some(), waits, "{arguments}");
        assert_eq!(s.pending_tool_at.is_some(), !waits, "{arguments}");
    }
}

#[test]
fn approvals_can_be_given_directly() {
    let mut a = ev("function_call", 10);
    a.call_id = Some("a".into());
    a.name = Some("Write".into());
    let mut b = ev("function_call", 20);
    b.call_id = Some("b".into());
    b.name = Some("Read".into());
    let s = aggregate_with(&[a, b], &vec![true, false], "s", None);
    assert_eq!(s.pending_approval_at, Some(10));
    assert_eq!(s.pending_tool_at, Some(20));
    assert_eq!(s.detail.as_deref(), Some("Write"));
}

#[test]
fn newest_pending_call_counts() {
    let call = |id: &str, ts: u64, name: &str| {
        let mut e = ev("function_call", ts);
        e.call_id = Some(id.into());
        e.name = Some(name.into());
        e.arguments = Some("{\"requires_approval\":true}".into());
        e
    };
    let s = agg(&[call("a", 100, "Bash"), call("b", 300, "Edit"), call("c", 200, "Read")], "s", None);
    assert_eq!(s.pending_approval_at, Some(300));
    assert_eq!(s.updated_at, 300);
}

#[test]
fn only_waiting_sessions_carry_a_risk() {
    let mut e = ev("function_call", 1_000);
    e.call_id = Some("c".into());
    e.name = Some("Bash".into());
    e.arguments = Some("{\"requires_approval\":true}".into());
    let s = agg(&[e], "s", None);
    let waiting = map_session(&s, 1_500);
    assert_eq!(waiting.status, DeckStatus::Waiting);
    assert_eq!(waiting.risk, Some(Risk::High));
    assert_eq!(waiting.waiting_since, Some(1_000));
    let later = map_session(&s, 1_000 + WAITING_WINDOW_MS + 1);
    assert_eq!(later.status, DeckStatus::Idle);
    assert_eq!(later.risk, None);
    assert_eq!(later.waiting_since, None);
}

#[test]
fn a_session_waits_since_its_last_update() {
    let mut e = ev("function_call", 1_000);
    e.call_id = Some("c".into());
    e.arguments = Some("{\"requires_approval\":true}".into());
    let s = agg(&[e, ev("summary", 5_000)], "s", None);
    assert_eq!(s.pending_approval_at, Some(1_000));
    let waiting = map_session(&s, 6_000);
    assert_eq!(waiting.status, DeckStatus::Waiting);
    assert_eq!(waiting.updated_at, 5_000);
    assert_eq!(waiting.waiting_since, Some(5_000));
}

#[test]
fn events_of_unknown_kinds_change_nothing() {
    let mut call = ev("function_call", 300);
    call.call_id = Some("c".into());
    call.name = Some("Bash".into());
    call.arguments = Some("{\"requires_approval\":true}".into());
    let mut title = ev("ai-title", 50);
    title.ai_title = Some("T".into());
    let log = || vec![title.clone(), user(100), call.clone(), assistant(400, "incomplete")];
    let plain = agg(&log(), "s", Some(7));
    for p in 0..=4 {
        let mut noisy = log();
        let mut strange = ev("file-history-snapshot", 400);
        strange.role = Some("assistant".into());
        strange.call_id = Some("c".into());
        strange.title = Some("not a title".into());
        noisy.insert(p, strange);
        assert_eq!(format!("{:?}", agg(&noisy, "s", Some(7))), format!("{plain:?}"));
    }
}

#[test]
fn a_log_without_events_says_nothing() {
    let blank = SessionSignals::default();
    let read = agg(&[], "", None);
    assert_eq!(format!("{blank:?}"), format!("{read:?}"));
    assert_eq!(blank.clone().updated_at, 0);
}

#[test]
fn the_picker_lists_at_a_later_moment_what_the_board_showed() {
    let mut obs = JsonlObserver::new(JsonlObserverOptions {
        max_sessions: 2,
        catalog_max_sessions: 3,
        ..options()
    });
    obs.open(true).unwrap();
    let found = scan(
        (0..5).map(|i| file(&format!("s{i}"), vec![titled(i * 100, "t", "/p")])).collect(),
    );
    let ids = |v: &[agent_deck::protocol::SessionSnapshot]| -> Vec<String> {
        v.iter().map(|s| s.session_id.clone()).collect()
    };
    let polled = obs.poll_once(&found, 500);
    let listed = obs.catalog_once(true, &found, 900_000_000);
    assert_eq!(ids(&polled), ["s4", "s3"]);
    assert_eq!(ids(&listed), ["s4", "s3", "s2"]);
    assert_eq!(ids(obs.last_snapshots()), ids(&polled));
}

#[test]
fn older_databases_are_asked_in_their_own_words() {
    assert_eq!(older_session_queries(&vec![]), [SESSIONS_NO_FLAG_SQL, SESSIONS_OLDEST_SQL]);
    let row = SessionRow {
        id: "s".into(),
        title: None,
        custom_title: None,
        cwd: None,
        is_playground: 0,
        is_background_automation: 0,
        status: None,
        updated_at: None,
    };
    assert!(older_session_queries(&vec![row]).is_empty());
}

#[test]
fn risk_ignores_case_and_knows_its_words() {
    assert_eq!(infer_risk(Some("BASH")), Risk::High);
    assert_eq!(infer_risk(Some("MultiEdit")), Risk::High);
    assert_eq!(infer_risk(Some("GLOB files")), Risk::Low);
    assert_eq!(infer_risk(Some("")), Risk::Medium);
    assert_eq!(risk_of_lower("remove"), Risk::High);
    assert_eq!(risk_of_lower("BASH"), Risk::Medium);
    assert_eq!(risk_of_lower("web"), Risk::Medium);
}

// The database.

fn row(id: &str) -> SessionRow {
    SessionRow {
        id: id.into(),
        title: None,
        custom_title: None,
        cwd: None,
        is_playground: 0,
        is_background_automation: 0,
        status: None,
        updated_at: None,
    }
}

#[test]
fn rows_are_read_tolerantly() {
    let mut r = row("s");
    r.title = Some("".into());
    r.custom_title = Some("mine".into());
    r.is_playground = 2;
    r.updated_at = Some(-5);
    let m = row_meta(&r);
    assert_eq!(m.title, None);
    assert_eq!(m.custom_title.as_deref(), Some("mine"));
    assert!(m.is_playground);
    assert!(!m.is_background_automation);
    assert_eq!(m.updated_at, Some(0));
}

#[test]
fn last_row_of_a_session_counts() {
    let mut first = row("s");
    first.title = Some("old".into());
    let mut second = row("s");
    second.title = Some("new".into());
    let map = index_meta(&vec![first, row("t"), second]);
    assert_eq!(map.get("s").unwrap().title.as_deref(), Some("new"));
    assert!(map.contains_key("t"));
    assert!(!map.contains_key("u"));
}

#[test]
fn automations_name_their_folders() {
    let rows = vec![
        ("daily".to_string(), "[\"/w/a\",\"/w/b/\"]".to_string()),
        ("broken".to_string(), "no list".to_string()),
        ("numbers".to_string(), "[1]".to_string()),
    ];
    let names = automation_names(&rows);
    assert_eq!(names.get("/w/a").map(String::as_str), Some("daily"));
    assert!(!names.contains_key("/w/c"));
    let same = name_folders(&vec![
        ("daily".to_string(), Some(vec!["/w/a".to_string(), "/w/b/".to_string()])),
        ("broken".to_string(), None),
        ("numbers".to_string(), None),
    ]);
    for folder in ["/w/a", "/w/b", "/w/b/", "/w/c"] {
        assert_eq!(names.get(folder), same.get(folder), "{folder}");
    }
}

#[test]
fn paths_are_split_into_names() {
    assert_eq!(path_parts("/Users/x//WorkBuddy/"), ["Users", "x", "WorkBuddy"]);
    assert!(path_parts("//").is_empty());
    assert_eq!(normalize_path("C:\\Users\\x\\"), "C:/Users/x");
}

// What a scan shows.

fn options() -> JsonlObserverOptions {
    JsonlObserverOptions::for_home("/home/me")
}

fn file(id: &str, events: Vec<SessionEvent>) -> SessionFile {
    SessionFile {
        session_id: id.into(),
        events,
        mtime_ms: None,
    }
}

fn scan(files: Vec<SessionFile>) -> Scan {
    Scan {
        files,
        meta: TextMap::new(),
        automations: TextMap::new(),
        deleted: vec![],
    }
}

fn titled(ts: u64, title: &str, cwd: &str) -> SessionEvent {
    let mut e = ev("ai-title", ts);
    e.ai_title = Some(title.into());
    e.cwd = Some(cwd.into());
    e
}

#[test]
fn missing_tree_degrades_to_empty() {
    let mut obs = JsonlObserver::new(JsonlObserverOptions {
        projects_dir: "/tmp/x/nope".into(),
        ..options()
    });
    obs.open(false).unwrap();
    let snaps = obs.poll_once(&scan(vec![]), 1);
    assert!(snaps.is_empty());
}

#[test]
fn missing_tree_fails_when_configured() {
    let mut obs = JsonlObserver::new(JsonlObserverOptions {
        projects_dir: "/tmp/x/nope".into(),
        fail_on_missing: true,
        ..options()
    });
    assert!(obs.open(false).is_err());
    assert_eq!(
        obs.open(false),
        Err(ObserverError::MissingTree("/tmp/x/nope".into()))
    );
    assert!(!obs.is_available());
    assert_eq!(obs.open(true), Ok(()));
    assert!(obs.is_available());
}

#[test]
fn scans_sessions_across_workspaces() {
    let mut obs = JsonlObserver::new(options());
    obs.open(true).unwrap();
    let found = scan(vec![
        file("s1", vec![titled(1000, "task one", "/a")]),
        file("s2", vec![titled(2000, "task two", "/b")]),
    ]);
    let snaps = obs.poll_once(&found, 9_000_000);
    assert_eq!(snaps.len(), 2);
    assert_eq!(snaps[0].session_id, "s2");
    assert_eq!(snaps[0].title, "task two");
    assert_eq!(snaps[1].session_id, "s1");
    assert_eq!(snaps[1].title, "task one");
    assert!(snaps.iter().all(|s| s.backend == BackendId::Workbuddy));
    assert_eq!(obs.last_snapshots().len(), 2);
}

#[test]
fn poll_pinned_filters_by_id() {
    let mut obs = JsonlObserver::new(options());
    obs.open(true).unwrap();
    let found = scan(vec![file("s1", vec![ev("message", 1)]), file("s2", vec![ev("message", 2)])]);
    let pinned = obs.poll_pinned_once(&["s2".to_string()], true, &found, 5);
    assert_eq!(pinned.len(), 1);
    assert_eq!(pinned[0].session_id, "s2");
    assert!(obs.poll_pinned_once(&[], true, &found, 5).is_empty());
}

#[test]
fn exclude_workspace_filters_sessions() {
    let mut obs = JsonlObserver::new(JsonlObserverOptions {
        exclude_workspaces: vec!["secret".into()],
        ..options()
    });
    obs.open(true).unwrap();
    let mut e = ev("message", 1);
    e.cwd = Some("/Users/x/WorkBuddy/secret".into());
    assert!(obs.poll_once(&scan(vec![file("s1", vec![e])]), 5).is_empty());
}

#[test]
fn poll_shows_fewer_sessions_than_the_catalog() {
    let mut obs = JsonlObserver::new(JsonlObserverOptions {
        max_sessions: 2,
        catalog_max_sessions: 3,
        ..options()
    });
    let found = scan(
        (0..5).map(|i| file(&format!("s{i}"), vec![titled(i * 100, "t", "/p")])).collect(),
    );
    // Nothing shows before the logs were found; the catalog looks for them itself.
    assert!(obs.poll_once(&found, 9_000_000).is_empty());
    assert!(obs.catalog_once(false, &found, 9_000_000).is_empty());
    let ids = |v: Vec<agent_deck::protocol::SessionSnapshot>| -> Vec<String> {
        v.into_iter().map(|s| s.session_id).collect()
    };
    assert_eq!(ids(obs.catalog_once(true, &found, 9_000_000)), ["s4", "s3", "s2"]);
    assert_eq!(ids(obs.poll_once(&found, 9_000_000)), ["s4", "s3"]);
    assert_eq!(obs.options().max_sessions, 2);
}

#[test]
fn the_database_names_and_dates_sessions() {
    let mut meta_row = row("s1");
    meta_row.title = Some("generated".into());
    meta_row.custom_title = Some("renamed".into());
    meta_row.cwd = Some("/Users/x/WorkBuddy/2026-07-23-16-37-26".into());
    meta_row.is_playground = 1;
    meta_row.updated_at = Some(5_000);
    let mut found = scan(vec![file(
        "s1",
        vec![titled(1000, "from the log", "/Users/x/WorkBuddy/2026-07-23-16-37-26")],
    )]);
    found.meta = index_meta(&vec![meta_row]);
    let mut obs = JsonlObserver::new(options());
    obs.open(true).unwrap();
    let snaps = obs.poll_once(&found, 9_000_000);
    assert_eq!(snaps[0].title, "renamed");
    assert_eq!(snaps[0].updated_at, 5_000);
    assert_eq!(snaps[0].project_category, Some(ProjectCategory::Task));
    assert_eq!(snaps[0].project_label.as_deref(), Some("renamed"));
}

#[test]
fn deleted_archived_and_claw_sessions_are_hidden() {
    let mut archived = row("s2");
    archived.status = Some("ARCHIVED".into());
    let mut found = scan(vec![
        file("s1", vec![titled(1000, "gone", "/a")]),
        file("s2", vec![titled(2000, "archived", "/b")]),
        file("s3", vec![titled(3000, "claw", "/Users/x/WorkBuddy/Claw")]),
        file("s4", vec![titled(4000, "kept", "/Users/x/proj")]),
    ]);
    found.deleted = vec!["s1".into()];
    found.meta = index_meta(&vec![archived]);
    let mut obs = JsonlObserver::new(options());
    obs.open(true).unwrap();
    let snaps = obs.poll_once(&found, 9_000_000);
    assert_eq!(snaps.len(), 1);
    assert_eq!(snaps[0].session_id, "s4");
    assert_eq!(snaps[0].project_category, Some(ProjectCategory::Project));
    assert_eq!(snaps[0].project_label.as_deref(), Some("proj"));
}

#[test]
fn db_custom_title_overrides_jsonl_ai_title() {
    let mut found = scan(vec![file("s1", vec![titled(1000, "打招呼", "/Users/x/WorkBuddy/t")])]);
    let mut stored = row("s1");
    stored.title = Some("打招呼".into());
    stored.custom_title = Some("ai".into());
    stored.cwd = Some("/Users/x/WorkBuddy/t".into());
    stored.is_playground = 1;
    found.meta = index_meta(&vec![stored]);
    let mut obs = JsonlObserver::new(options());
    obs.open(true).unwrap();
    let snaps = obs.poll_once(&found, 9_000_000);
    assert_eq!(snaps.len(), 1);
    assert_eq!(snaps[0].title, "ai");
    assert_eq!(snaps[0].project_category, Some(ProjectCategory::Task));
    assert_eq!(snaps[0].project_label.as_deref(), Some("ai"));
}

#[test]
fn automation_session_classified_and_named_from_table() {
    let folder = "/Users/x/WorkBuddy/automation-2026-07-17-10-27-12";
    let mut found = scan(vec![file("s1", vec![titled(1, "x", folder)])]);
    let mut stored = row("s1");
    stored.title = Some("x".into());
    stored.cwd = Some(folder.into());
    stored.is_background_automation = 1;
    found.meta = index_meta(&vec![stored]);
    found.automations =
        automation_names(&vec![("每日 AI 新闻推送".to_string(), format!("[\"{folder}\"]"))]);
    let mut obs = JsonlObserver::new(options());
    obs.open(true).unwrap();
    let snaps = obs.poll_once(&found, 9_000_000);
    assert_eq!(snaps.len(), 1);
    assert_eq!(snaps[0].project_category, Some(ProjectCategory::Automation));
    assert_eq!(snaps[0].project_label.as_deref(), Some("每日 AI 新闻推送"));
}

#[test]
fn soft_deleted_session_hidden_from_poll() {
    let message = |ts: u64| {
        let mut e = ev("message", ts);
        e.cwd = Some("/Users/x/WorkBuddy/t".into());
        e
    };
    let mut found = scan(vec![file("s1", vec![message(1)]), file("s2", vec![message(2)])]);
    found.meta = index_meta(&vec![row("s2")]);
    found.deleted = vec!["s1".into()];
    let mut obs = JsonlObserver::new(options());
    obs.open(true).unwrap();
    let snaps = obs.poll_once(&found, 9_000_000);
    assert_eq!(snaps.len(), 1);
    assert_eq!(snaps[0].session_id, "s2");
}

#[test]
fn ignores_non_jsonl_files() {
    assert_eq!(session_of_file("readme.txt"), None);
    assert_eq!(session_of_file("s1.jsonl").as_deref(), Some("s1"));
    assert_eq!(session_of_file("a.b.jsonl").as_deref(), Some("a.b"));
    assert_eq!(session_of_file(".jsonl"), None);
    assert_eq!(session_of_file("s1.JSONL"), None);
    let mut obs = JsonlObserver::new(options());
    obs.open(true).unwrap();
    assert_eq!(obs.poll_once(&scan(vec![file("s1", vec![ev("message", 1)])]), 5).len(), 1);
}

#[test]
fn project_session_classified_with_folder_leaf() {
    let mut obs = JsonlObserver::new(options());
    obs.open(true).unwrap();
    let found = scan(vec![file("s1", vec![titled(1, "fix bug", "/Users/x/Desktop/modjing")])]);
    let snaps = obs.poll_once(&found, 9_000_000);
    assert_eq!(snaps.len(), 1);
    assert_eq!(snaps[0].project_category, Some(ProjectCategory::Project));
    assert_eq!(snaps[0].project_label.as_deref(), Some("modjing"));
}
