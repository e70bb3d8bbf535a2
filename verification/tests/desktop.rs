//! The desktop service, its files, links and messages.
use agent_deck::config::{default_config, default_pins_path, default_settings_path, HostConfig};
use agent_deck::desktop::{
    demo_board_at, demo_board_state, menu_step, parse_ui_action, tray_step, DeckSettings,
    DesktopService, WindowStep,
};
use agent_deck::host::{BackendError, BackendObserver, HostCore, SessionInfo};
use agent_deck::json::{parse, serialize, Json};
use agent_deck::links::{
    find_row, open_failure, open_target, ready_step, slot_session, url_encode_path, warm_up,
    OpenTarget, ReadyStep,
};
use agent_deck::pins::{load_pins, pins_from_pairs, save_pins};
use agent_deck::protocol::{
    home_dir, join_path, Action, BackendId, BoardState, DeckStatus, LedFx, PolicyMode,
    SessionSnapshot, DONE_TTL_MS, DONE_TTL_UNOPENED_MS,
};
use agent_deck::text;
use agent_deck::ui_driver::{
    driver_reply, driver_request, reply_count, reply_text, resolve_app_path, says, APP_BUNDLE,
};
use std::collections::HashMap;

struct FixedObserver {
    id: BackendId,
    snaps: Vec<SessionSnapshot>,
}

impl BackendObserver for FixedObserver {
    fn id(&self) -> BackendId {
        self.id
    }
    fn poll(&mut self) -> Result<Vec<SessionSnapshot>, BackendError> {
        Ok(self.snaps.clone())
    }
    fn list_catalog(&mut self) -> Result<Vec<SessionSnapshot>, BackendError> {
        self.catalog_from_poll()
    }
    fn poll_pinned(&mut self, ids: &[String]) -> Result<Vec<SessionSnapshot>, BackendError> {
        self.pinned_from_poll(ids)
    }
    fn dispatch(&mut self, action: &Action) -> Result<String, BackendError> {
        self.refuse(action)
    }
    fn dispatch_for(&mut self, action: &Action, _session_id: &str) -> Result<String, BackendError> {
        self.refuse(action)
    }
}

fn snap(backend: BackendId, id: &str, status: DeckStatus) -> SessionSnapshot {
    SessionSnapshot {
        backend,
        session_id: id.into(),
        title: id.into(),
        status,
        risk: None,
        detail: None,
        waiting_since: None,
        updated_at: 1000,
        workspace_path: Some(format!("/w/{id} x")),
        project_category: None,
        project_label: None,
    }
}

fn host_with(backend: BackendId, snaps: Vec<SessionSnapshot>) -> HostCore {
    HostCore::with_observers(5, vec![Box::new(FixedObserver { id: backend, snaps })])
}

// Buttons.

#[test]
fn parse_ui_action_maps_known_strings() {
    assert!(matches!(
        parse_ui_action("accept").unwrap(),
        Action::Accept { i: None }
    ));
    assert!(matches!(
        parse_ui_action("OK").unwrap(),
        Action::Accept { i: None }
    ));
    assert!(matches!(
        parse_ui_action("stp").unwrap(),
        Action::Stop { i: None }
    ));
    assert!(matches!(parse_ui_action("stop_all").unwrap(), Action::StopAll));
    assert!(parse_ui_action("nope").is_none());
}

#[test]
fn buttons_ignore_case_and_space() {
    assert_eq!(parse_ui_action(" Reject\n"), Some(Action::Reject { i: None }));
    assert_eq!(parse_ui_action("NO"), Some(Action::Reject { i: None }));
    assert_eq!(parse_ui_action("stop"), Some(Action::Stop { i: None }));
    assert_eq!(parse_ui_action("StopAll"), Some(Action::StopAll));
    assert_eq!(parse_ui_action(""), None);
    assert_eq!(parse_ui_action("stop all"), None);
}

// Links.

#[test]
fn url_encode_keeps_unreserved_and_slash() {
    assert_eq!(
        url_encode_path("/Users/munich/code/proxy-pool_v2.0"),
        "/Users/munich/code/proxy-pool_v2.0"
    );
}

#[test]
fn url_encode_encodes_space() {
    assert_eq!(url_encode_path("/a/b c"), "/a/b%20c");
}

#[test]
fn url_encode_encodes_chinese_path() {
    let encoded = url_encode_path("/Users/munich/Desktop/独立项目/modjing");
    assert!(encoded.starts_with("/Users/munich/Desktop/"));
    assert!(!encoded.contains('独'));
    assert_eq!(
        encoded,
        "/Users/munich/Desktop/%E7%8B%AC%E7%AB%8B%E9%A1%B9%E7%9B%AE/modjing"
    );
}

#[test]
fn url_encode_escapes_everything_else() {
    assert_eq!(url_encode_path("~a+b%c?d&e=f"), "~a%2Bb%25c%3Fd%26e%3Df");
    assert_eq!(url_encode_path(""), "");
    assert_eq!(url_encode_path("\u{7f}\u{1F600}"), "%7F%F0%9F%98%80");
}

fn info(workspace: Option<&str>) -> SessionInfo {
    let mut s = snap(BackendId::Zcode, "s", DeckStatus::Idle);
    s.workspace_path = workspace.map(str::to_string);
    SessionInfo::from(&s)
}

#[test]
fn sessions_open_by_link_or_by_name() {
    let url = |u: &str| OpenTarget::Url(u.to_string());
    assert_eq!(
        open_target(BackendId::Zcode, "s", Some(&info(Some("/a b")))),
        url("zcode://workspace/open?path=/a%20b")
    );
    let app = OpenTarget::App("ZCode".to_string());
    assert_eq!(open_target(BackendId::Zcode, "s", None), app);
    assert_eq!(open_target(BackendId::Zcode, "s", Some(&info(None))), app);
    assert_eq!(open_target(BackendId::Zcode, "s", Some(&info(Some("")))), app);
    assert_eq!(open_target(BackendId::Zcode, "s", Some(&info(Some("(unknown project)")))), app);
    assert_eq!(open_target(BackendId::Codex, "t-1", None), url("codex://threads/t-1"));
    assert_eq!(open_target(BackendId::Workbuddy, "w-1", None), url("workbuddy://chat/w-1"));
    assert_eq!(open_failure(BackendId::Zcode, &app), "open ZCode failed: ");
    assert_eq!(open_failure(BackendId::Zcode, &url("u")), "open ZCode workspace failed: ");
    assert_eq!(open_failure(BackendId::Codex, &url("u")), "open codex thread failed: ");
    assert_eq!(open_failure(BackendId::Workbuddy, &url("u")), "open WorkBuddy task failed: ");
}

#[test]
fn applications_are_brought_up_first() {
    assert_eq!(warm_up(BackendId::Zcode, true), None);
    let codex = warm_up(BackendId::Codex, false).unwrap();
    assert_eq!(codex.running, "ChatGPT.app/Contents/MacOS/ChatGPT");
    assert_eq!(codex.app, "ChatGPT");
    assert_eq!(codex.ready, "ChatGPT.exe");
    let wb = warm_up(BackendId::Workbuddy, true).unwrap();
    assert_eq!(wb.running, "WorkBuddy.app/Contents/MacOS");
    assert_eq!(wb.ready, wb.running);
    assert_eq!(ready_step(0, false), ReadyStep::Again(250));
    assert_eq!(ready_step(39, true), ReadyStep::Up(500));
    assert_eq!(ready_step(40, true), ReadyStep::GiveUp);
}

#[test]
fn keys_without_a_session_cannot_be_opened() {
    let board = BoardState::new(vec![], 0, PolicyMode::Act);
    assert_eq!(slot_session(&board, 3), Err("slot 3 not found".to_string()));
    let mut svc = DesktopService::from_host(host_with(BackendId::Codex, vec![]));
    svc.tick_at(10).unwrap();
    assert_eq!(
        svc.open_slot_session(2),
        Err("empty slot — long-press to bind a session".to_string())
    );
    assert_eq!(svc.board_state().focus, 2);
    assert_eq!(svc.open_slot_session(7), Err("slot 7 not found".to_string()));
}

#[test]
fn opening_a_key_starts_the_short_fade() {
    let mut done = snap(BackendId::Workbuddy, "w", DeckStatus::Done);
    done.updated_at = 1_000;
    let mut svc = DesktopService::from_host(host_with(BackendId::Workbuddy, vec![done]));
    svc.tick_at(2_000).unwrap();
    assert_eq!(
        svc.open_slot_session(0),
        Ok((BackendId::Workbuddy, OpenTarget::Url("workbuddy://chat/w".to_string())))
    );
    let opened = agent_deck::host::now_ms();
    svc.tick_at(opened + DONE_TTL_MS + 60_000).unwrap();
    assert_eq!(svc.board_state().slots[0].status, DeckStatus::Idle);
}

#[test]
fn opening_a_task_leads_to_its_workspace() {
    let mut svc = DesktopService::from_host(host_with(
        BackendId::Zcode,
        vec![snap(BackendId::Zcode, "z", DeckStatus::Working)],
    ));
    svc.tick_at(2_000).unwrap();
    assert_eq!(
        svc.open_slot_session(0),
        Ok((
            BackendId::Zcode,
            OpenTarget::Url("zcode://workspace/open?path=/w/z%20x".to_string())
        ))
    );
    let rows = svc.list_sessions();
    assert_eq!(find_row(&rows, "z").unwrap().title, "z");
    assert!(find_row(&rows, "other").is_none());
}

// The service.

#[test]
fn settings_start_in_manual_mode() {
    let s = DeckSettings::default();
    assert!(!s.auto_fill);
    assert_eq!(s.done_ttl_after_open_ms, DONE_TTL_MS);
    assert_eq!(s.done_ttl_unopened_ms, DONE_TTL_UNOPENED_MS);
}

#[test]
fn kept_settings_take_effect() {
    let saved = DeckSettings {
        auto_fill: true,
        done_ttl_after_open_ms: 7,
        done_ttl_unopened_ms: 9,
    };
    let host = || {
        host_with(BackendId::Zcode, vec![snap(BackendId::Zcode, "z", DeckStatus::Working)])
    };
    let mut svc = DesktopService::new(host(), "/h", None, Some(saved));
    assert_eq!(*svc.settings(), saved);
    assert_eq!(svc.board_state().slots[0].session_id.as_deref(), Some("z"));
    assert_eq!(svc.set_auto_fill(false).as_deref(), Some("/h/.agent-deck/settings.json"));
    assert!(svc.board_state().slots[0].session_id.is_none());
    assert!(!svc.settings().auto_fill);
    assert_eq!(svc.set_done_ttl(1, 2).as_deref(), Some("/h/.agent-deck/settings.json"));
    assert_eq!(svc.settings().done_ttl_after_open_ms, 1);
    assert_eq!(svc.settings().done_ttl_unopened_ms, 2);
    // Without a file the saved settings do not count.
    let mut svc = DesktopService::new_with_paths(host(), None, None, None, Some(saved));
    assert_eq!(*svc.settings(), DeckSettings::default());
    assert_eq!(svc.set_auto_fill(true), None);
    assert_eq!(svc.pin_slot(0, None), None);
    assert!(!svc.using_demo());
}

#[test]
fn pins_survive_a_restart() {
    let host = || {
        host_with(
            BackendId::Zcode,
            vec![
                snap(BackendId::Zcode, "a", DeckStatus::Working),
                snap(BackendId::Zcode, "b", DeckStatus::Done),
            ],
        )
    };
    let mut svc = DesktopService::new_with_pins_path(host(), Some("/p/pins.json".into()), None);
    svc.pin_slot(3, Some("b".into()));
    let file = svc.pin_slot(1, Some("a".into())).unwrap();
    assert_eq!(file.path, "/p/pins.json");
    let again =
        DesktopService::new_with_pins_path(host(), Some(file.path.clone()), Some(file.text));
    assert_eq!(again.host().pins(), svc.host().pins());
    assert_eq!(again.board_state().slots[3].session_id.as_deref(), Some("b"));
    assert_eq!(again.board_state().slots[1].pinned, Some(true));
}

#[test]
fn a_service_without_a_tick_shows_dark_keys() {
    let svc = DesktopService::from_host(HostCore::with_observers(3, vec![]));
    let board = svc.board_state();
    assert_eq!(board.slots.len(), 8);
    assert!(board.slots.iter().all(|s| s.session_id.is_none() && s.status == DeckStatus::Off));
    let led = svc.led_frame();
    assert_eq!(led.slots.len(), 8);
    assert!(led.slots.iter().all(|s| s.rgb.is_none()));
}

#[test]
fn the_demonstration_waits_and_works() {
    let (led, board) = demo_board_at(100_000);
    assert_eq!(board.slots[0].session_id.as_deref(), Some("demo_waiting"));
    assert_eq!(board.slots[0].status, DeckStatus::Waiting);
    assert_eq!(board.slots[0].detail.as_deref(), Some("Bash: shell"));
    assert_eq!(board.slots[1].session_id.as_deref(), Some("demo_working"));
    assert_eq!(led.slots[0].fx, LedFx::BlinkSlow);
    assert_eq!(led.slots[1].rgb, Some([0x30, 0x4F, 0xFE]));
    assert_eq!(board.slots.len(), 8);
    let (_, now) = demo_board_state();
    assert_eq!(now.slots[0].session_id.as_deref(), Some("demo_waiting"));
}

// Files.

#[test]
fn pins_are_read_tolerantly() {
    let pins = load_pins("{\"0\":\"a\",\"+3\":\"b\",\"x\":\"c\",\"-1\":\"d\",\"\":\"e\"}");
    assert_eq!(pins, HashMap::from([(0, "a".to_string()), (3, "b".to_string())]));
    assert!(load_pins("{\"0\":1}").is_empty());
    assert!(load_pins("not json").is_empty());
    assert!(load_pins("{\"99999999999999999999999\":\"a\"}").is_empty());
    let pairs = vec![("7".to_string(), "p".to_string()), ("07".to_string(), "q".to_string())];
    assert_eq!(pins_from_pairs(&pairs), HashMap::from([(7, "q".to_string())]));
}

#[test]
fn pins_are_written_and_read_back() {
    let pins = HashMap::from([
        (0, "plain".to_string()),
        (12, "with \"quotes\" and 中文".to_string()),
        (usize::MAX, String::new()),
    ]);
    let raw = save_pins(&pins).unwrap();
    assert!(raw.contains("\"12\""));
    assert_eq!(load_pins(&raw), pins);
    assert_eq!(load_pins(&save_pins(&HashMap::new()).unwrap()), HashMap::new());
}

#[test]
fn paths_lie_in_the_home_directory() {
    assert_eq!(home_dir(Some("/h".into()), Some("C:\\u".into())), "/h");
    assert_eq!(home_dir(None, Some("C:\\u".into())), "C:\\u");
    assert_eq!(home_dir(None, None), ".");
    assert_eq!(join_path("/h", "x/y"), "/h/x/y");
    assert_eq!(join_path("/h/", "x"), "/h/x");
    assert_eq!(join_path("", "x"), "x");
    assert_eq!(default_pins_path("/h"), "/h/.agent-deck/pins.json");
    assert_eq!(default_settings_path("/h"), "/h/.agent-deck/settings.json");
}

#[test]
fn databases_can_be_redirected() {
    let usual = HostConfig::for_home("/h");
    assert_eq!(usual.tasks_db_path, "/h/.zcode/v2/tasks-index.sqlite");
    assert_eq!(usual.tool_db_path, "/h/.zcode/cli/db/db.sqlite");
    assert_eq!(usual.slot_count, 8);
    let moved = default_config("/h", Some("/t/tasks".into()), Some("/t/tool".into()));
    assert_eq!(moved.tasks_db_path, "/t/tasks");
    assert_eq!(moved.tool_db_path, "/t/tool");
}

#[test]
fn a_configuration_names_its_observers() {
    let mut config = HostConfig::for_home("/h");
    config.exclude_workspaces = vec!["secret".into()];
    config.codex_cli_path = Some("/c".into());
    let plan = config.observers("/h", true);
    assert_eq!(plan.zcode.exclude_workspaces, ["secret"]);
    let codex = plan.codex.unwrap();
    assert_eq!(codex.cli_path.as_deref(), Some("/c"));
    assert!(codex.enable_ipc);
    let workbuddy = plan.workbuddy.unwrap();
    assert_eq!(workbuddy.projects_dir, "/h/.workbuddy/projects");
    assert_eq!(workbuddy.exclude_workspaces, ["secret"]);
    config.enable_codex = false;
    config.workbuddy_projects_dir = Some("/logs".into());
    let plan = config.observers("/h", false);
    assert!(plan.codex.is_none());
    assert_eq!(plan.workbuddy.unwrap().projects_dir, "/logs");
    config.enable_workbuddy = false;
    assert!(config.observers("/h", false).workbuddy.is_none());
}

// Messages of the window driver.

#[test]
fn driver_requests_carry_their_number() {
    let extra = vec![
        ("selector".to_string(), Json::Text("input#auto-fill".into())),
        ("ms".to_string(), Json::Number("8000".into())),
    ];
    let request = driver_request(4, "click", extra);
    assert_eq!(request.get("id"), Some(&Json::Number("4".into())));
    assert_eq!(request.get("op"), Some(&Json::Text("click".into())));
    assert_eq!(request.get("ms"), Some(&Json::Number("8000".into())));
    let replaced = driver_request(4, "x", vec![("op".to_string(), Json::Text("y".into()))]);
    assert_eq!(
        serialize(&replaced).unwrap(),
        serialize(&parse(b"{\"id\":4,\"op\":\"y\"}").unwrap()).unwrap()
    );
}

#[test]
fn driver_replies_are_told_from_noise() {
    let line = "  {\"id\":4,\"ok\":true,\"count\":3,\"value\":\"1\",\"running\":false}\n";
    let reply = driver_reply(line, 4).unwrap();
    assert!(says(&reply, "ok"));
    assert!(!says(&reply, "running"));
    assert!(!says(&reply, "value"));
    assert_eq!(reply_count(&reply), Some(3));
    assert_eq!(reply_text(&reply, "value"), "1");
    assert_eq!(reply_text(&reply, "title"), "");
    assert!(driver_reply(line, 5).is_none());
    assert!(driver_reply("", 4).is_none());
    assert!(driver_reply("[1]", 4).is_none());
    assert!(driver_reply("{broken", 4).is_none());
    assert!(driver_reply("{\"id\":\"4\"}", 4).is_none());
    let negative = driver_reply("{\"id\":1,\"count\":-2}", 1).unwrap();
    assert_eq!(reply_count(&negative), None);
}

// Texts.

#[test]
fn white_space_is_that_of_unicode() {
    for c in '\0'..=char::MAX {
        assert_eq!(text::is_white_space(c), c.is_whitespace(), "{c:?}");
    }
}

#[test]
fn texts_behave_like_std() {
    let samples = ["", " ", "\u{3000} Ab\u{a0}C\t", "x+1", "ÄÖ", "aXbXc", "+12", "007", "12a", "-3"];
    for s in samples {
        assert_eq!(text::trim(s), s.trim());
        assert_eq!(text::to_ascii_lowercase(s), s.to_ascii_lowercase());
        assert_eq!(text::parse_usize(s), s.parse::<usize>().ok(), "{s:?}");
        for t in samples {
            assert_eq!(text::contains(s, t), s.contains(t), "{s:?} {t:?}");
            assert_eq!(text::starts_with(s, t), s.starts_with(t));
            assert_eq!(text::ends_with(s, t), s.ends_with(t));
            assert_eq!(text::eq_ignore_ascii_case(s, t), s.eq_ignore_ascii_case(t));
            assert_eq!(text::same(s, t), s == t);
        }
    }
    for n in [0, 9, 10, 1234567890, u64::MAX] {
        assert_eq!(text::to_decimal(n), n.to_string());
    }
}

// The window.

#[test]
fn the_tray_steers_the_window() {
    assert_eq!(menu_step("show"), WindowStep::Show);
    assert_eq!(menu_step("hide"), WindowStep::Hide);
    assert_eq!(menu_step("quit"), WindowStep::Quit);
    assert_eq!(menu_step("other"), WindowStep::Nothing);
    assert_eq!(tray_step(true, true, true), WindowStep::Hide);
    assert_eq!(tray_step(true, true, false), WindowStep::Show);
    assert_eq!(tray_step(true, false, false), WindowStep::Nothing);
    assert_eq!(tray_step(false, true, true), WindowStep::Nothing);
}

#[test]
fn the_driven_application_has_to_exist() {
    assert_eq!(resolve_app_path(Some("/a.app".into()), true, false), Ok("/a.app".to_string()));
    assert_eq!(
        resolve_app_path(Some("/a.app".into()), false, true),
        Err("AGENT_DECK_APP set but path does not exist: /a.app".to_string())
    );
    assert_eq!(resolve_app_path(None, false, true), Ok(APP_BUNDLE.to_string()));
    assert!(resolve_app_path(None, false, false).unwrap_err().starts_with("App bundle not found"));
}
