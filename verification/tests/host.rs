//! The host: fading, ticks, catalogs, key actions.
use agent_deck::host::{
    decay_done_status, dispatch_status, first_match, merge_catalogs, now_ms, ActionRoute,
    BackendAnswer, BackendError, BackendObserver, HostCore, SessionInfo,
};
use agent_deck::protocol::{
    Action, BackendId, DeckStatus, PolicyMode, SessionSnapshot, DONE_TTL_MS, DONE_TTL_UNOPENED_MS,
};
use std::collections::HashMap;
use std::sync::{Arc, Mutex};

/// An observer with fixed answers that remembers the actions it gets.
struct RecordingObserver {
    id: BackendId,
    snaps: Vec<SessionSnapshot>,
    dispatched: Arc<Mutex<Vec<Action>>>,
    supported: Vec<&'static str>,
}

impl BackendObserver for RecordingObserver {
    fn id(&self) -> BackendId {
        self.id
    }
    fn poll(&mut self) -> Result<Vec<SessionSnapshot>, BackendError> {
        Ok(self.snaps.clone())
    }
    fn dispatch(&mut self, action: &Action) -> Result<String, BackendError> {
        *self.dispatched.lock().unwrap() = vec![action.clone()];
        let tag = action.op_tag();
        if self.supported.iter().any(|s| *s == tag) {
            Ok(format!("ok:{tag}"))
        } else {
            Ok(format!("unsupported:{tag}"))
        }
    }
    fn list_catalog(&mut self) -> Result<Vec<SessionSnapshot>, BackendError> {
        self.catalog_from_poll()
    }
    fn poll_pinned(&mut self, ids: &[String]) -> Result<Vec<SessionSnapshot>, BackendError> {
        self.pinned_from_poll(ids)
    }
    fn dispatch_for(&mut self, action: &Action, _session_id: &str) -> Result<String, BackendError> {
        self.dispatch(action)
    }
}

fn recording(
    id: BackendId,
    snaps: Vec<SessionSnapshot>,
    supported: Vec<&'static str>,
) -> RecordingObserver {
    RecordingObserver {
        id,
        snaps,
        dispatched: Arc::new(Mutex::new(vec![])),
        supported,
    }
}

/// An observer that implements only what it must, or always fails.
struct PlainObserver {
    id: BackendId,
    snaps: Option<Vec<SessionSnapshot>>,
}

impl BackendObserver for PlainObserver {
    fn id(&self) -> BackendId {
        self.id
    }
    fn poll(&mut self) -> Result<Vec<SessionSnapshot>, BackendError> {
        match &self.snaps {
            Some(s) => Ok(s.clone()),
            None => Err(BackendError { message: "down".into() }),
        }
    }
    fn list_catalog(&mut self) -> Result<Vec<SessionSnapshot>, BackendError> {
        self.catalog_from_poll()
    }
    fn poll_pinned(&mut self, ids: &[String]) -> Result<Vec<SessionSnapshot>, BackendError> {
        self.pinned_from_poll(ids)
    }
    fn dispatch(&mut self, action: &Action) -> Result<String, BackendError> {
        self.refuse(action)
    }
    fn dispatch_for(&mut self, action: &Action, _session_id: &str) -> Result<String, BackendError> {
        self.refuse(action)
    }
}

/// An observer whose catalog and pinned sessions differ from its poll.
struct HistoryObserver {
    polled: Vec<SessionSnapshot>,
    history: Vec<SessionSnapshot>,
}

impl BackendObserver for HistoryObserver {
    fn id(&self) -> BackendId {
        BackendId::Workbuddy
    }
    fn poll(&mut self) -> Result<Vec<SessionSnapshot>, BackendError> {
        Ok(self.polled.clone())
    }
    fn list_catalog(&mut self) -> Result<Vec<SessionSnapshot>, BackendError> {
        Ok(self.history.clone())
    }
    fn poll_pinned(&mut self, ids: &[String]) -> Result<Vec<SessionSnapshot>, BackendError> {
        Ok(self.history.iter().filter(|s| ids.contains(&s.session_id)).cloned().collect())
    }
    fn dispatch(&mut self, _action: &Action) -> Result<String, BackendError> {
        Err(BackendError { message: "broken pipe".into() })
    }
    fn dispatch_for(&mut self, action: &Action, _session_id: &str) -> Result<String, BackendError> {
        self.dispatch(action)
    }
}

fn snap(backend: BackendId, id: &str, status: DeckStatus) -> SessionSnapshot {
    SessionSnapshot {
        backend,
        session_id: id.into(),
        title: id.into(),
        status,
        risk: None,
        detail: None,
        waiting_since: None,
        updated_at: 1000,
        workspace_path: None,
        project_category: None,
        project_label: None,
    }
}

fn wb_done(session_id: &str, done_since: u64) -> SessionSnapshot {
    SessionSnapshot {
        updated_at: done_since,
        title: "t".into(),
        ..snap(BackendId::Workbuddy, session_id, DeckStatus::Done)
    }
}

fn zcode_done(session_id: &str, done_since: u64) -> SessionSnapshot {
    SessionSnapshot {
        updated_at: done_since,
        title: "t".into(),
        ..snap(BackendId::Zcode, session_id, DeckStatus::Done)
    }
}

#[test]
fn dispatch_routes_stop_to_focused_slot_backend() {
    // Waiting ranks above working: key 0 is Codex, key 1 is ZCode.
    let zcode_obs = recording(
        BackendId::Zcode,
        vec![snap(BackendId::Zcode, "z1", DeckStatus::Working)],
        vec![],
    );
    let codex_obs = recording(
        BackendId::Codex,
        vec![snap(BackendId::Codex, "c1", DeckStatus::Waiting)],
        vec!["stop"],
    );
    let mut host = HostCore::with_observers(5, vec![Box::new(zcode_obs), Box::new(codex_obs)]);
    host.tick_at(1000).unwrap();
    let board = host.board_state().unwrap();
    assert_eq!(board.slots[0].backend, Some(BackendId::Codex));
    assert_eq!(board.slots[1].backend, Some(BackendId::Zcode));
    host.set_focus_at(0, 1000);
    let r = host.dispatch_action(&Action::Stop { i: None });
    assert_eq!(r, "ok:stop", "codex should accept stop, got: {r}");
    host.set_focus_at(1, 1000);
    let r = host.dispatch_action(&Action::Stop { i: None });
    assert!(r.starts_with("unsupported:stop"), "got: {r}");
}

#[test]
fn dispatch_empty_slot_returns_no_target() {
    let zcode_obs = recording(BackendId::Zcode, vec![], vec!["accept"]);
    let mut host = HostCore::with_observers(5, vec![Box::new(zcode_obs)]);
    host.tick_at(1000).unwrap();
    let r = host.dispatch_action(&Action::Accept { i: Some(0) });
    assert!(r.contains("empty_slot") || r.contains("no_target"), "got: {r}");
}

#[test]
fn dispatch_explicit_slot_overrides_focus() {
    let zcode_obs = recording(
        BackendId::Zcode,
        vec![snap(BackendId::Zcode, "z1", DeckStatus::Working)],
        vec!["accept"],
    );
    let codex_obs = recording(
        BackendId::Codex,
        vec![snap(BackendId::Codex, "c1", DeckStatus::Waiting)],
        vec![],
    );
    let mut host = HostCore::with_observers(5, vec![Box::new(zcode_obs), Box::new(codex_obs)]);
    host.tick_at(1000).unwrap();
    // The focus is on Codex, but the action names the key of ZCode.
    host.set_focus_at(0, 1000);
    let r = host.dispatch_action(&Action::Accept { i: Some(1) });
    assert_eq!(r, "ok:accept", "zcode slot 1 should accept, got: {r}");
}

#[test]
fn observers_get_the_action_as_it_is() {
    let obs = recording(
        BackendId::Zcode,
        vec![snap(BackendId::Zcode, "z1", DeckStatus::Working)],
        vec!["send"],
    );
    let seen = obs.dispatched.clone();
    let mut host = HostCore::with_observers(5, vec![Box::new(obs)]);
    host.tick_at(1000).unwrap();
    let action = Action::Send { i: Some(0), text: "go on".into() };
    assert_eq!(host.dispatch_action(&action), "ok:send");
    assert_eq!(*seen.lock().unwrap(), vec![action]);
}

#[test]
fn routes_name_why_an_action_stays() {
    let status = |r: ActionRoute| match r {
        ActionRoute::Status(s) => s,
        _ => panic!("not refused"),
    };
    let host = HostCore::with_observers(2, vec![]);
    assert_eq!(status(host.route(&Action::Stop { i: None })), "unsupported:stop:no_board");
    let obs = PlainObserver {
        id: BackendId::Zcode,
        snaps: Some(vec![snap(BackendId::Codex, "c", DeckStatus::Working)]),
    };
    let mut host = HostCore::with_observers(2, vec![Box::new(obs)]);
    host.tick_at(5).unwrap();
    assert_eq!(status(host.route(&Action::Accept { i: Some(9) })), "unsupported:accept:bad_slot");
    assert_eq!(status(host.route(&Action::Reject { i: Some(1) })), "unsupported:reject:empty_slot");
    assert_eq!(
        status(host.route(&Action::SetMode { mode: PolicyMode::Plan })),
        "unsupported:set_mode"
    );
    assert_eq!(status(host.route(&Action::Unfreeze)), "unsupported:unfreeze");
    assert_eq!(status(host.route(&Action::Focus { i: 0 })), "unsupported:focus");
    assert_eq!(
        status(host.route(&Action::Pin { i: 0, session_id: None })),
        "unsupported:pin"
    );
    assert!(matches!(host.route(&Action::StopAll), ActionRoute::Broadcast));
    // The session says it is Codex's, and nobody observes Codex.
    match host.route(&Action::Stop { i: Some(0) }) {
        ActionRoute::Backend(backend, id) => {
            assert_eq!(backend, BackendId::Codex);
            assert_eq!(id, "c");
        }
        _ => panic!("not for a backend"),
    }
    assert_eq!(
        host.dispatch_action(&Action::Stop { i: Some(0) }),
        "unsupported:stop:no_observer"
    );
}

#[test]
fn stop_all_goes_to_everyone_and_the_last_answer_counts() {
    let mut nobody = HostCore::with_observers(2, vec![]);
    assert_eq!(nobody.dispatch_action(&Action::StopAll), "ok:stop_all:noop");
    let first = recording(BackendId::Zcode, vec![], vec![]);
    let second = recording(BackendId::Codex, vec![], vec!["stop_all"]);
    let (saw_first, saw_second) = (first.dispatched.clone(), second.dispatched.clone());
    let mut host = HostCore::with_observers(2, vec![Box::new(first), Box::new(second)]);
    assert_eq!(host.dispatch_action(&Action::StopAll), "ok:stop_all");
    assert_eq!(saw_first.lock().unwrap().len(), 1);
    assert_eq!(saw_second.lock().unwrap().len(), 1);
    let failing = HistoryObserver { polled: vec![], history: vec![] };
    let mut host = HostCore::with_observers(2, vec![Box::new(failing)]);
    assert_eq!(host.dispatch_action(&Action::StopAll), "error:stop_all:broken pipe");
}

#[test]
fn failed_deliveries_are_errors() {
    assert_eq!(dispatch_status("stop", Ok("ok:stop:x".into())), "ok:stop:x");
    let failed = Err(BackendError { message: "gone".into() });
    assert_eq!(dispatch_status("stop", failed), "error:stop:gone");
}

#[test]
fn observers_may_answer_from_their_poll_alone() {
    let mut obs = PlainObserver {
        id: BackendId::Zcode,
        snaps: Some(vec![
            snap(BackendId::Zcode, "a", DeckStatus::Working),
            snap(BackendId::Zcode, "b", DeckStatus::Done),
        ]),
    };
    let ids = |v: Vec<SessionSnapshot>| -> Vec<String> {
        v.into_iter().map(|s| s.session_id).collect()
    };
    assert_eq!(ids(obs.list_catalog().unwrap()), ["a", "b"]);
    assert_eq!(ids(obs.poll_pinned(&["b".into(), "c".into()]).unwrap()), ["b"]);
    assert_eq!(obs.dispatch(&Action::StopAll).unwrap(), "unsupported:stop_all");
    obs.snaps = None;
    assert_eq!(obs.list_catalog().unwrap_err().message, "down");
    assert_eq!(obs.poll_pinned(&["b".into()]).unwrap_err().message, "down");
}

#[test]
fn default_observers_support_nothing() {
    let obs = PlainObserver {
        id: BackendId::Zcode,
        snaps: Some(vec![snap(BackendId::Zcode, "z", DeckStatus::Working)]),
    };
    let mut host = HostCore::with_observers(2, vec![Box::new(obs)]);
    host.tick_at(5).unwrap();
    assert_eq!(host.dispatch_action(&Action::Accept { i: None }), "unsupported:accept");
}

// Fading of finished sessions.

#[test]
fn unopened_stays_done_within_long_ttl() {
    let done_since = 1_000_000;
    let now = done_since + 60 * 60 * 1000;
    let snap = wb_done("s1", done_since);
    assert_eq!(
        decay_done_status(&snap, None, now, DONE_TTL_MS, DONE_TTL_UNOPENED_MS),
        DeckStatus::Done
    );
}

#[test]
fn unopened_force_idle_after_long_ttl() {
    let done_since = 1_000_000;
    let now = done_since + DONE_TTL_UNOPENED_MS + 1;
    let snap = wb_done("s1", done_since);
    assert_eq!(
        decay_done_status(&snap, None, now, DONE_TTL_MS, DONE_TTL_UNOPENED_MS),
        DeckStatus::Idle
    );
}

#[test]
fn after_open_stays_done_inside_short_ttl() {
    let done_since = 1_000_000;
    let opened = done_since + 10_000;
    let now = opened + DONE_TTL_MS - 1;
    let snap = wb_done("s1", done_since);
    assert_eq!(
        decay_done_status(&snap, Some(opened), now, DONE_TTL_MS, DONE_TTL_UNOPENED_MS),
        DeckStatus::Done
    );
}

#[test]
fn after_open_idle_past_short_ttl() {
    let done_since = 1_000_000;
    let opened = done_since + 10_000;
    let now = opened + DONE_TTL_MS + 1;
    let snap = wb_done("s1", done_since);
    assert_eq!(
        decay_done_status(&snap, Some(opened), now, DONE_TTL_MS, DONE_TTL_UNOPENED_MS),
        DeckStatus::Idle
    );
}

#[test]
fn open_before_done_counts_as_unopened() {
    let done_since = 1_000_000;
    let opened = done_since - 5_000;
    let now = done_since + DONE_TTL_MS + 60_000;
    let snap = wb_done("s1", done_since);
    assert_eq!(
        decay_done_status(&snap, Some(opened), now, DONE_TTL_MS, DONE_TTL_UNOPENED_MS),
        DeckStatus::Done
    );
}

#[test]
fn non_workbuddy_done_untouched() {
    let done_since = 1_000_000;
    let now = done_since + DONE_TTL_UNOPENED_MS + 1;
    let snap = zcode_done("s1", done_since);
    assert_eq!(
        decay_done_status(&snap, None, now, DONE_TTL_MS, DONE_TTL_UNOPENED_MS),
        DeckStatus::Done
    );
}

#[test]
fn opened_sessions_fade_on_the_board() {
    let obs = HistoryObserver { polled: vec![wb_done("w", 1_000)], history: vec![] };
    let mut host = HostCore::with_observers(2, vec![Box::new(obs)]);
    let status = |h: &HostCore| h.board_state().unwrap().slots[0].status;
    host.tick_at(2_000).unwrap();
    assert_eq!(status(&host), DeckStatus::Done);
    host.mark_opened_at(BackendId::Workbuddy, "w", 3_000);
    host.tick_at(3_000 + DONE_TTL_MS).unwrap();
    assert_eq!(status(&host), DeckStatus::Done);
    host.tick_at(3_000 + DONE_TTL_MS + 1).unwrap();
    assert_eq!(status(&host), DeckStatus::Idle);
    host.set_done_ttl(10 * DONE_TTL_MS, DONE_TTL_UNOPENED_MS);
    host.tick_at(3_000 + DONE_TTL_MS + 1).unwrap();
    assert_eq!(status(&host), DeckStatus::Done);
}

#[test]
fn opening_another_backends_session_changes_nothing() {
    let obs = HistoryObserver { polled: vec![wb_done("w", 1_000)], history: vec![] };
    let mut host = HostCore::with_observers(2, vec![Box::new(obs)]);
    host.mark_opened_at(BackendId::Codex, "w", 3_000);
    host.tick_at(3_000 + DONE_TTL_MS + 1).unwrap();
    assert_eq!(host.board_state().unwrap().slots[0].status, DeckStatus::Done);
}

// Ticks, catalogs, pins.

#[test]
fn a_failing_backend_does_not_block_the_others() {
    let down = PlainObserver { id: BackendId::Codex, snaps: None };
    let up = PlainObserver {
        id: BackendId::Zcode,
        snaps: Some(vec![snap(BackendId::Zcode, "z", DeckStatus::Working)]),
    };
    let mut host = HostCore::with_observers(3, vec![Box::new(down), Box::new(up)]);
    assert!(host.is_empty_board());
    let (led, board) = host.tick_at(10).unwrap();
    assert_eq!(board.unwrap().slots[0].session_id.as_deref(), Some("z"));
    assert!(led.unwrap().slots[0].rgb.is_some());
    assert!(!host.is_empty_board());
}

#[test]
fn answers_are_taken_one_after_the_other() {
    let mut host = HostCore::with_observers(3, vec![]);
    host.set_pins(HashMap::from([(2, "old".to_string())]));
    host.take_answers(
        &vec![
            BackendAnswer { id: BackendId::Codex, polled: None, pinned: None },
            BackendAnswer {
                id: BackendId::Zcode,
                polled: Some(vec![snap(BackendId::Zcode, "z", DeckStatus::Working)]),
                pinned: Some(vec![snap(BackendId::Zcode, "old", DeckStatus::Error)]),
            },
        ],
        10,
    );
    let board = host.board_state().unwrap();
    assert_eq!(board.slots[0].session_id.as_deref(), Some("z"));
    assert_eq!(board.slots[2].session_id.as_deref(), Some("old"));
    assert_eq!(board.slots[2].status, DeckStatus::Error);
    // A failed poll leaves everything as it was.
    let failed = BackendAnswer { id: BackendId::Zcode, polled: None, pinned: None };
    host.take_answers(&vec![failed], 20);
    assert_eq!(host.list_sessions().len(), 2);
    // A silent backend keeps only what is pinned.
    let silent = BackendAnswer { id: BackendId::Zcode, polled: Some(vec![]), pinned: None };
    host.take_answers(&vec![silent], 30);
    assert_eq!(host.list_sessions().len(), 1);
}

#[test]
fn pinned_sessions_stay_live_beyond_the_poll() {
    let obs = HistoryObserver {
        polled: vec![],
        history: vec![snap(BackendId::Workbuddy, "old", DeckStatus::Waiting)],
    };
    let mut host = HostCore::with_observers(3, vec![Box::new(obs)]);
    host.tick_at(10).unwrap();
    assert!(host.is_empty_board());
    host.set_pins(HashMap::from([(2, "old".to_string())]));
    assert_eq!(host.board_state().unwrap().slots[2].session_id, None);
    host.tick_at(20).unwrap();
    let slot = &host.board_state().unwrap().slots[2];
    assert_eq!(slot.session_id.as_deref(), Some("old"));
    assert_eq!(slot.status, DeckStatus::Waiting);
    assert_eq!(slot.pinned, Some(true));
}

#[test]
fn binding_recalls_sessions_from_the_catalog() {
    let obs = HistoryObserver {
        polled: vec![],
        history: vec![wb_done("ancient", 0), snap(BackendId::Workbuddy, "x", DeckStatus::Idle)],
    };
    let mut host = HostCore::with_observers(3, vec![Box::new(obs)]);
    host.pin_session_from_catalog(1, Some("ancient".into()));
    let slot = &host.board_state().unwrap().slots[1];
    assert_eq!(slot.session_id.as_deref(), Some("ancient"));
    // Finished long ago and never opened: it has faded.
    assert_eq!(slot.status, DeckStatus::Idle);
    assert_eq!(host.pins().get(&1).map(String::as_str), Some("ancient"));
    host.pin_session_from_catalog(1, None);
    assert!(host.pins().is_empty());
    host.pin_session_from_catalog(0, Some("unknown".into()));
    assert_eq!(host.board_state().unwrap().slots[0].session_id, None);
    assert_eq!(host.board_state().unwrap().slots[0].pinned, Some(true));
}

#[test]
fn catalogs_are_merged_without_repeats() {
    let mut newer = snap(BackendId::Zcode, "a", DeckStatus::Done);
    newer.updated_at = 2_000;
    let rows = merge_catalogs(&vec![
        vec![snap(BackendId::Zcode, "a", DeckStatus::Working), newer],
        vec![
            snap(BackendId::Codex, "a", DeckStatus::Waiting),
            snap(BackendId::Codex, "b", DeckStatus::Done),
        ],
    ]);
    let ids: Vec<(BackendId, &str)> =
        rows.iter().map(|r| (r.backend, r.session_id.as_str())).collect();
    assert_eq!(
        ids,
        [(BackendId::Codex, "a"), (BackendId::Zcode, "a"), (BackendId::Codex, "b")]
    );
    // The first of two rows of a session is listed.
    assert_eq!(rows[1].status, DeckStatus::Working);
}

#[test]
fn picker_rows_carry_the_session() {
    let mut s = snap(BackendId::Codex, "id", DeckStatus::Error);
    s.title = "title".into();
    s.workspace_path = Some("/w".into());
    s.detail = Some("d".into());
    s.project_label = Some("label".into());
    let row = SessionInfo::from(&s);
    assert_eq!(row.backend, BackendId::Codex);
    assert_eq!(row.session_id, "id");
    assert_eq!(row.title, "title");
    assert_eq!(row.status, DeckStatus::Error);
    assert_eq!(row.workspace_path.as_deref(), Some("/w"));
    assert_eq!(row.detail.as_deref(), Some("d"));
    assert_eq!(row.updated_at, 1000);
    assert_eq!(row.project_category, None);
    assert_eq!(row.project_label.as_deref(), Some("label"));
}

#[test]
fn host_lists_what_the_board_knows() {
    let obs = PlainObserver {
        id: BackendId::Zcode,
        snaps: Some(vec![
            snap(BackendId::Zcode, "done", DeckStatus::Done),
            snap(BackendId::Zcode, "waits", DeckStatus::Waiting),
        ]),
    };
    let mut host = HostCore::with_observers(3, vec![Box::new(obs)]);
    host.tick().unwrap();
    let ids: Vec<String> = host.list_sessions().into_iter().map(|r| r.session_id).collect();
    assert_eq!(ids, ["waits", "done"]);
    assert_eq!(host.list_catalog().len(), 2);
    host.set_auto_fill(false);
    assert!(!host.auto_fill());
    assert!(host.is_empty_board());
    host.set_pin(0, Some("done".into()));
    assert!(!host.is_empty_board());
    host.recompute_only();
    host.set_focus(2);
    assert_eq!(host.board_state().unwrap().focus, 2);
}

#[test]
fn first_of_equal_ids_is_found() {
    let mut second = snap(BackendId::Zcode, "a", DeckStatus::Done);
    second.title = "second".into();
    let all = vec![snap(BackendId::Zcode, "a", DeckStatus::Done), second];
    assert_eq!(first_match(&all, "a").unwrap().title, "a");
    assert!(first_match(&all, "b").is_none());
}

#[test]
fn the_clock_runs() {
    // Well after 2020 and well before 2100.
    let now = now_ms();
    assert!(now > 1_577_836_800_000 && now < 4_102_444_800_000);
}

/// An observer that remembers, in one list with others, everything it is asked.
struct TracingObserver {
    name: &'static str,
    id: BackendId,
    polled: Option<Vec<SessionSnapshot>>,
    catalog: Option<Vec<SessionSnapshot>>,
    calls: Arc<Mutex<Vec<String>>>,
}

impl TracingObserver {
    fn note(&self, call: String) {
        self.calls.lock().unwrap().push(format!("{} {call}", self.name));
    }
}

impl BackendObserver for TracingObserver {
    fn id(&self) -> BackendId {
        self.id
    }
    fn poll(&mut self) -> Result<Vec<SessionSnapshot>, BackendError> {
        self.note("poll".into());
        self.polled.clone().ok_or(BackendError { message: "down".into() })
    }
    fn list_catalog(&mut self) -> Result<Vec<SessionSnapshot>, BackendError> {
        self.note("catalog".into());
        self.catalog.clone().ok_or(BackendError { message: "down".into() })
    }
    fn poll_pinned(&mut self, ids: &[String]) -> Result<Vec<SessionSnapshot>, BackendError> {
        let mut ids = ids.to_vec();
        ids.sort();
        self.note(format!("pinned {}", ids.join(",")));
        Ok(vec![])
    }
    fn dispatch(&mut self, action: &Action) -> Result<String, BackendError> {
        self.note(format!("do {}", action.op_tag()));
        Ok(format!("ok:{}", self.name))
    }
    fn dispatch_for(&mut self, action: &Action, session_id: &str) -> Result<String, BackendError> {
        self.note(format!("do {} on {session_id}", action.op_tag()));
        match action {
            Action::Reject { .. } => Err(BackendError { message: "gone".into() }),
            _ => Ok(format!("ok:{}:{session_id}", self.name)),
        }
    }
}

fn taken(calls: &Arc<Mutex<Vec<String>>>) -> Vec<String> {
    std::mem::take(&mut *calls.lock().unwrap())
}

#[test]
fn an_action_goes_to_one_observer_with_the_session_of_its_key() {
    let calls = Arc::new(Mutex::new(vec![]));
    let tracing = |name, id, polled: Vec<SessionSnapshot>| {
        Box::new(TracingObserver {
            name,
            id,
            polled: Some(polled),
            catalog: None,
            calls: calls.clone(),
        }) as Box<dyn BackendObserver>
    };
    let mut host = HostCore::with_observers(
        3,
        vec![
            tracing("z", BackendId::Zcode, vec![snap(BackendId::Zcode, "z1", DeckStatus::Working)]),
            tracing("c", BackendId::Codex, vec![
                snap(BackendId::Codex, "c1", DeckStatus::Done),
                snap(BackendId::Codex, "c2", DeckStatus::Waiting),
            ]),
            tracing("d", BackendId::Codex, vec![]),
        ],
    );
    host.take_answers(
        &vec![BackendAnswer {
            id: BackendId::Codex,
            polled: Some(vec![
                snap(BackendId::Codex, "c1", DeckStatus::Working),
                snap(BackendId::Codex, "c2", DeckStatus::Waiting),
            ]),
            pinned: None,
        }],
        1000,
    );
    assert!(taken(&calls).is_empty());
    host.set_focus_at(1, 1000);
    assert_eq!(host.dispatch_action(&Action::Stop { i: None }), "ok:c:c1");
    assert_eq!(taken(&calls), ["c do stop on c1"]);
    assert_eq!(host.dispatch_action(&Action::Stop { i: Some(0) }), "ok:c:c2");
    assert_eq!(taken(&calls), ["c do stop on c2"]);
    assert_eq!(host.dispatch_action(&Action::Reject { i: Some(0) }), "error:reject:gone");
    assert_eq!(taken(&calls), ["c do reject on c2"]);
    assert_eq!(host.dispatch_action(&Action::Stop { i: Some(2) }), "unsupported:stop:empty_slot");
    assert!(taken(&calls).is_empty());
    assert_eq!(host.dispatch_action(&Action::StopAll), "ok:d");
    assert_eq!(taken(&calls), ["z do stop_all", "c do stop_all", "d do stop_all"]);
}

#[test]
fn a_tick_asks_each_observer_once_and_for_the_pins_together() {
    let calls = Arc::new(Mutex::new(vec![]));
    let tracing = |name, polled| {
        Box::new(TracingObserver {
            name,
            id: BackendId::Zcode,
            polled,
            catalog: None,
            calls: calls.clone(),
        }) as Box<dyn BackendObserver>
    };
    let mut host =
        HostCore::with_observers(3, vec![tracing("a", None), tracing("b", Some(vec![]))]);
    host.tick_at(5).unwrap();
    assert_eq!(taken(&calls), ["a poll", "b poll"]);
    host.set_pins(HashMap::from([(0, "x".to_string()), (2, "y".to_string())]));
    host.tick_at(6).unwrap();
    assert_eq!(taken(&calls), ["a poll", "b poll", "b pinned x,y"]);
}

#[test]
fn catalogs_are_asked_for_in_turn() {
    let calls = Arc::new(Mutex::new(vec![]));
    let tracing = |name, catalog: Option<Vec<SessionSnapshot>>| {
        Box::new(TracingObserver {
            name,
            id: BackendId::Codex,
            polled: Some(vec![]),
            catalog,
            calls: calls.clone(),
        }) as Box<dyn BackendObserver>
    };
    let one = |id: &str| Some(vec![snap(BackendId::Codex, id, DeckStatus::Idle)]);
    let mut host = HostCore::with_observers(
        3,
        vec![tracing("a", None), tracing("b", one("s")), tracing("c", one("t"))],
    );
    let rows = host.list_catalog();
    assert_eq!(rows.len(), 2);
    assert_eq!(taken(&calls), ["a catalog", "b catalog", "c catalog"]);

    // The first catalog that lists the session is the last one asked for.
    host.pin_session_from_catalog(1, Some("s".into()));
    assert_eq!(taken(&calls), ["a catalog", "b catalog"]);
    let shown = |host: &HostCore, i: usize| host.board_state().unwrap().slots[i].session_id.clone();
    assert_eq!(shown(&host, 1), Some("s".to_string()));
    // A session that the board knows is not looked for.
    host.pin_session_from_catalog(0, Some("s".into()));
    assert!(taken(&calls).is_empty());
    // One that no catalog lists leaves its key pinned and empty.
    host.pin_session_from_catalog(2, Some("nowhere".into()));
    assert_eq!(taken(&calls), ["a catalog", "b catalog", "c catalog"]);
    assert_eq!(shown(&host, 2), None);
    assert_eq!(host.pins().get(&2), Some(&"nowhere".to_string()));
    assert_eq!(host.pins().get(&1), Some(&"s".to_string()));
    host.pin_session_from_catalog(2, None);
    assert!(taken(&calls).is_empty());
    assert_eq!(host.pins().len(), 2);
}

#[test]
fn fading_twice_is_fading_once() {
    let snap = wb_done("s", 1_000);
    let now = 1_000 + DONE_TTL_UNOPENED_MS + 1;
    let fade = |s: &SessionSnapshot| SessionSnapshot {
        status: decay_done_status(s, None, now, DONE_TTL_MS, DONE_TTL_UNOPENED_MS),
        ..s.clone()
    };
    let once = fade(&snap);
    assert_eq!(once.status, DeckStatus::Idle);
    let twice = fade(&once);
    assert_eq!(twice.status, once.status);
    assert_eq!(twice.updated_at, snap.updated_at);
}
