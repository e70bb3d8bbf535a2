//! The board over real databases: the queries run against SQLite.
use agent_deck::codex::observer::{CodexObserver, EnsureStep, FetchReply};
use agent_deck::config::HostConfig;
use agent_deck::desktop::DesktopService;
use agent_deck::host::{BackendError, BackendObserver, HostCore};
use agent_deck::protocol::{Action, BackendId, DeckStatus, LedFx, SessionSnapshot};
use agent_deck::text_map::TextMap;
use agent_deck::workbuddy::db_meta::{
    automation_names, index_meta, preferred_title, SessionMeta, SessionRow, AUTOMATIONS_SQL,
    DELETED_SQL, SESSIONS_SQL,
};
use agent_deck::zcode::mapper::ZcodeRow;
use agent_deck::zcode::observer::{
    attach_sql, query_tasks_by_ids, task_row, SqliteObserver, SqliteObserverOptions, TaskRecord,
};
use rusqlite::{Connection, OpenFlags, Params, Row};
use std::path::{Path, PathBuf};
use std::time::{SystemTime, UNIX_EPOCH};
use tempfile::{tempdir, TempDir};

fn now_ms() -> u64 {
    SystemTime::now()
        .duration_since(UNIX_EPOCH)
        .map(|d| d.as_millis() as u64)
        .unwrap_or(0)
}

fn failed(e: rusqlite::Error) -> BackendError {
    BackendError { message: e.to_string() }
}

fn record(row: &Row<'_>) -> rusqlite::Result<TaskRecord> {
    Ok(TaskRecord {
        task_id: row.get(0)?,
        title: row.get(1)?,
        task_status: row.get(2)?,
        workspace_path: row.get(3)?,
        updated_at: row.get(4).ok(),
        waiting: row.get(5)?,
        detail: row.get(6)?,
        active: row.get(7)?,
    })
}

/// ZCode over two database files.
struct ZcodeBackend {
    core: SqliteObserver,
    conn: Option<Connection>,
}

impl ZcodeBackend {
    fn new(opts: SqliteObserverOptions) -> Self {
        let mut core = SqliteObserver::new(opts);
        let tasks = PathBuf::from(core.options().tasks_db_path.clone());
        let tool = PathBuf::from(core.options().tool_db_path.clone());
        let mut conn = None;
        if core.open(tasks.exists(), tool.exists()).unwrap() {
            let flags = OpenFlags::SQLITE_OPEN_READ_ONLY | OpenFlags::SQLITE_OPEN_NO_MUTEX;
            let c = Connection::open_with_flags(&tasks, flags).unwrap();
            c.execute(&attach_sql(&core.options().tool_db_path), []).unwrap();
            core.set_connected();
            conn = Some(c);
        }
        Self { core, conn }
    }

    fn rows<P: Params>(&self, sql: &str, params: P) -> rusqlite::Result<Vec<ZcodeRow>> {
        let Some(conn) = &self.conn else {
            return Ok(vec![]);
        };
        let mut stmt = conn.prepare(sql)?;
        let records: rusqlite::Result<Vec<TaskRecord>> = stmt.query_map(params, record)?.collect();
        Ok(records?.iter().map(task_row).collect())
    }
}

impl BackendObserver for ZcodeBackend {
    fn id(&self) -> BackendId {
        BackendId::Zcode
    }
    fn poll(&mut self) -> Result<Vec<SessionSnapshot>, BackendError> {
        let rows = self.rows(&self.core.poll_sql(), []).map_err(failed)?;
        Ok(self.core.poll_once(&rows))
    }
    fn list_catalog(&mut self) -> Result<Vec<SessionSnapshot>, BackendError> {
        let rows = self.rows(&self.core.catalog_sql(), []).map_err(failed)?;
        Ok(self.core.catalog_once(&rows))
    }
    fn poll_pinned(&mut self, ids: &[String]) -> Result<Vec<SessionSnapshot>, BackendError> {
        let sql = query_tasks_by_ids(ids.len());
        let rows = self.rows(&sql, rusqlite::params_from_iter(ids)).map_err(failed)?;
        Ok(self.core.poll_pinned_once(ids, &rows))
    }
    fn dispatch(&mut self, action: &Action) -> Result<String, BackendError> {
        self.refuse(action)
    }
    fn dispatch_for(&mut self, action: &Action, _session_id: &str) -> Result<String, BackendError> {
        self.refuse(action)
    }
}

/// Codex with a program that may not exist.
struct CodexBackend {
    core: CodexObserver,
}

impl CodexBackend {
    fn fetch(&self) -> FetchReply {
        match self.core.ensure_client() {
            EnsureStep::Open => {
                let found = self
                    .core
                    .options()
                    .cli_path
                    .as_ref()
                    .is_some_and(|p| Path::new(p).exists());
                assert!(!found, "the program is expected to be missing");
                FetchReply::OpenFailed
            }
            _ => FetchReply::NotConnected,
        }
    }
}

impl BackendObserver for CodexBackend {
    fn id(&self) -> BackendId {
        BackendId::Codex
    }
    fn poll(&mut self) -> Result<Vec<SessionSnapshot>, BackendError> {
        let reply = self.fetch();
        Ok(self.core.poll_once(&reply, None, now_ms() / 1000))
    }
    fn list_catalog(&mut self) -> Result<Vec<SessionSnapshot>, BackendError> {
        self.catalog_from_poll()
    }
    fn poll_pinned(&mut self, ids: &[String]) -> Result<Vec<SessionSnapshot>, BackendError> {
        self.pinned_from_poll(ids)
    }
    fn dispatch(&mut self, action: &Action) -> Result<String, BackendError> {
        self.refuse(action)
    }
    fn dispatch_for(&mut self, action: &Action, _session_id: &str) -> Result<String, BackendError> {
        self.refuse(action)
    }
}

fn host_of(config: HostConfig) -> HostCore {
    let plan = config.observers("/nowhere", true);
    let mut observers: Vec<Box<dyn BackendObserver>> = vec![Box::new(ZcodeBackend::new(plan.zcode))];
    if let Some(opts) = plan.codex {
        observers.push(Box::new(CodexBackend { core: CodexObserver::new(opts) }));
    }
    assert!(plan.workbuddy.is_none());
    HostCore::with_observers(config.slot_count, observers)
}

struct Fixture {
    dir: TempDir,
    tasks: PathBuf,
    tool: PathBuf,
    tasks_db: Connection,
    tool_db: Connection,
}

impl Fixture {
    fn new() -> Self {
        let dir = tempdir().unwrap();
        let tasks = dir.path().join("tasks-index.sqlite");
        let tool = dir.path().join("db.sqlite");
        let tasks_db = Connection::open(&tasks).unwrap();
        tasks_db
            .execute_batch(
                r#"
CREATE TABLE tasks (
  workspace_key TEXT NOT NULL,
  workspace_path TEXT NOT NULL,
  task_id TEXT NOT NULL,
  title TEXT NOT NULL DEFAULT '',
  task_status TEXT,
  created_at INTEGER NOT NULL,
  updated_at INTEGER NOT NULL,
  archived INTEGER NOT NULL DEFAULT 0,
  deleted INTEGER NOT NULL DEFAULT 0,
  PRIMARY KEY (workspace_key, task_id)
);
"#,
            )
            .unwrap();
        let tool_db = Connection::open(&tool).unwrap();
        tool_db
            .execute_batch(
                r#"
CREATE TABLE tool_usage (
  id text primary key,
  session_id text not null,
  turn_id text,
  trace_id text,
  tool_call_id text not null,
  tool_name text not null,
  side_effect_scope text,
  read_only integer,
  destructive integer,
  approval_status text,
  status text not null check(status in ('running', 'completed', 'error', 'cancelled')),
  started_at integer not null,
  first_output_at integer,
  completed_at integer,
  duration_ms integer,
  time_to_first_output_ms integer,
  exit_code integer,
  output_bytes integer not null default 0,
  stdout_bytes integer not null default 0,
  stderr_bytes integer not null default 0,
  truncated integer not null default 0,
  retry_count integer not null default 0,
  retryable integer not null default 0,
  cancelled_by_user integer not null default 0,
  error_type text,
  error_code text,
  error_message text
);
"#,
            )
            .unwrap();
        Self {
            dir,
            tasks,
            tool,
            tasks_db,
            tool_db,
        }
    }

    fn insert_task(&self, id: &str, status: &str, workspace: &str, updated_at: u64) {
        self.tasks_db
            .execute(
                "INSERT INTO tasks (workspace_key, workspace_path, task_id, title, task_status, created_at, updated_at, deleted, archived)
                 VALUES (?1, ?2, ?3, ?4, ?5, ?6, ?7, 0, 0)",
                (
                    format!("ws:{id}"),
                    workspace,
                    id,
                    format!("task {id}"),
                    status,
                    updated_at as i64,
                    updated_at as i64,
                ),
            )
            .unwrap();
    }

    fn update_task(&self, id: &str, status: &str, updated_at: u64) {
        self.tasks_db
            .execute(
                "UPDATE tasks SET task_status = ?1, updated_at = ?2 WHERE task_id = ?3",
                (status, updated_at as i64, id),
            )
            .unwrap();
    }

    fn delete_task(&self, id: &str) {
        self.tasks_db.execute("DELETE FROM tasks WHERE task_id = ?1", (id,)).unwrap();
    }

    fn insert_tool(
        &self,
        id: &str,
        session_id: &str,
        tool_name: &str,
        scope: &str,
        started_at: u64,
    ) {
        self.tool_db
            .execute(
                "INSERT INTO tool_usage (id, session_id, tool_call_id, tool_name, side_effect_scope, approval_status, status, started_at, completed_at)
                 VALUES (?1, ?2, ?3, ?4, ?5, 'requested', 'running', ?6, NULL)",
                (id, session_id, format!("call_{id}"), tool_name, scope, started_at as i64),
            )
            .unwrap();
    }

    fn complete_tool(&self, id: &str) {
        self.tool_db
            .execute(
                "UPDATE tool_usage SET status='completed', completed_at=?1, approval_status='approved' WHERE id=?2",
                (now_ms() as i64, id),
            )
            .unwrap();
    }

    fn config(&self) -> HostConfig {
        HostConfig {
            tasks_db_path: self.tasks.to_str().unwrap().to_string(),
            tool_db_path: self.tool.to_str().unwrap().to_string(),
            exclude_workspaces: vec![],
            exclude_task_ids: vec![],
            slot_count: 5,
            enable_codex: false,
            codex_cli_path: None,
            enable_workbuddy: false,
            workbuddy_projects_dir: None,
        }
    }

    fn host(&self) -> HostCore {
        host_of(self.config())
    }

    fn service(&self) -> DesktopService {
        DesktopService::new_with_pins_path(self.host(), None, None)
    }
}

fn board_status(host: &HostCore, session_id: &str) -> Option<DeckStatus> {
    host.board_state()?
        .slots
        .iter()
        .find(|s| s.session_id.as_deref() == Some(session_id))
        .map(|s| s.status)
}

// Priority, urgency, disappearance.

#[test]
fn waiting_outranks_working_and_done() {
    let fx = Fixture::new();
    // The windows of the query use the real time, so the rows have to be recent.
    let t = now_ms();
    fx.insert_task("done1", "completed", "/tmp/ws", t);
    fx.insert_task("work1", "running", "/tmp/ws", t + 1);
    fx.insert_task("wait1", "running", "/tmp/ws", t + 2);
    fx.insert_tool("tu1", "wait1", "AskUserQuestion", "userInteraction", t + 2);

    let mut host = fx.host();
    host.tick_at(t + 2).unwrap();
    let board = host.board_state().unwrap();
    assert_eq!(board.slots[0].session_id.as_deref(), Some("wait1"));
    assert_eq!(board.slots[0].status, DeckStatus::Waiting);
    assert_eq!(board.slots[1].session_id.as_deref(), Some("work1"));
    assert_eq!(board.slots[1].status, DeckStatus::Working);
    assert_eq!(board.slots[2].session_id.as_deref(), Some("done1"));
    assert_eq!(board.slots[2].status, DeckStatus::Done);
}

#[test]
fn urgency_low_risk_starts_solid_then_blink_fast() {
    let fx = Fixture::new();
    let t0 = now_ms();
    fx.insert_task("urg", "running", "/tmp/ws", t0);
    fx.insert_tool("tu", "urg", "AskUserQuestion", "userInteraction", t0);

    let mut host = fx.host();
    host.tick_at(t0).unwrap();
    assert_eq!(
        host.board_state()
            .unwrap()
            .slots
            .iter()
            .find(|s| s.session_id.as_deref() == Some("urg"))
            .map(|s| s.status),
        Some(DeckStatus::Waiting)
    );
    let led0 = host.led_frame().unwrap();
    let slot0 = led0.slots.iter().find(|s| s.rgb.is_some()).unwrap();
    assert_eq!(slot0.fx, LedFx::Solid, "fresh low-risk waiting is solid");

    // Three minutes later, without asking again.
    host.recompute_at(t0 + 3 * 60 * 1000);
    let led1 = host.led_frame().unwrap();
    let slot1 = led1.slots.iter().find(|s| s.rgb.is_some()).unwrap();
    assert_eq!(slot1.fx, LedFx::BlinkFast);
    let rgb = slot1.rgb.unwrap();
    assert!(rgb[0] > 240);
    assert!(rgb[1] < 80);
}

#[test]
fn more_than_five_sessions_only_top_five_slots() {
    let fx = Fixture::new();
    let t = now_ms();
    for i in 0..7 {
        fx.insert_task(&format!("s{i}"), "running", "/tmp/ws", t + i as u64);
    }
    let mut host = fx.host();
    host.tick_at(t + 10).unwrap();
    let board = host.board_state().unwrap();
    let occupied = board
        .slots
        .iter()
        .filter(|s| s.session_id.is_some())
        .count();
    assert_eq!(occupied, 5);
    assert_eq!(board.slots.len(), 5);
}

#[test]
fn removed_task_disappears_from_board() {
    let fx = Fixture::new();
    let t = now_ms();
    fx.insert_task("gone", "running", "/tmp/ws", t);
    let mut host = fx.host();
    host.tick_at(t).unwrap();
    assert!(host
        .board_state()
        .unwrap()
        .slots
        .iter()
        .any(|s| s.session_id.as_deref() == Some("gone")));

    fx.delete_task("gone");
    host.tick_at(t + 1).unwrap();
    assert!(host
        .board_state()
        .unwrap()
        .slots
        .iter()
        .all(|s| s.session_id.as_deref() != Some("gone")));
}

#[test]
fn focus_marks_slot_and_persists_across_tick() {
    let fx = Fixture::new();
    let t = now_ms();
    fx.insert_task("a", "running", "/tmp/ws", t);
    fx.insert_task("b", "running", "/tmp/ws", t + 1);
    let mut host = fx.host();
    host.tick_at(t + 1).unwrap();
    host.set_focus_at(1, t + 1);
    assert_eq!(host.board_state().unwrap().focus, 1);
    host.tick_at(t + 2).unwrap();
    assert_eq!(host.board_state().unwrap().focus, 1);
    assert_eq!(host.board_state().unwrap().slots[1].focused, Some(true));
}

// The flow of a task.

#[test]
fn working_task_paints_blue_breathe() {
    let fx = Fixture::new();
    fx.insert_task("sess_working", "running", "/tmp/ws", now_ms());
    let mut host = fx.host();
    let (led, board) = host.tick().unwrap();
    let board = board.unwrap();
    assert!(board.slots.iter().any(
        |s| s.session_id.as_deref() == Some("sess_working") && s.status == DeckStatus::Working
    ));
    let led = led.unwrap();
    let occupied = led.slots.iter().find(|s| s.rgb.is_some()).unwrap();
    assert_eq!(occupied.fx, LedFx::Breathe);
    let rgb = occupied.rgb.unwrap();
    assert!(rgb[0] < 120);
    assert!(rgb[2] > 200);
}

#[test]
fn waiting_requested_is_orange_warm() {
    let fx = Fixture::new();
    let t = now_ms();
    fx.insert_task("sess_waiting", "running", "/tmp/ws", t);
    fx.insert_tool("tu1", "sess_waiting", "Bash", "shell", t);
    let mut host = fx.host();
    host.tick().unwrap();
    assert_eq!(
        board_status(&host, "sess_waiting"),
        Some(DeckStatus::Waiting)
    );
    let led = host.led_frame().unwrap();
    let warm = led
        .slots
        .iter()
        .find(|s| s.rgb.map(|c| c[0] > 150).unwrap_or(false));
    assert!(warm.is_some(), "expected warm waiting color");
}

#[test]
fn full_demo_working_waiting_accept_done() {
    let fx = Fixture::new();
    let t0 = now_ms();
    fx.insert_task("sess_flow", "running", "/tmp/ws", t0);
    let mut host = fx.host();
    host.tick().unwrap();
    assert_eq!(board_status(&host, "sess_flow"), Some(DeckStatus::Working));

    // Started longer ago than the window of recent use, so that nothing keeps
    // the task at work once the tool has finished.
    let tool_started = now_ms().saturating_sub(4 * 60 * 1000);
    fx.insert_tool("tu_flow", "sess_flow", "Bash", "git push", tool_started);
    host.tick().unwrap();
    assert_eq!(board_status(&host, "sess_flow"), Some(DeckStatus::Waiting));

    fx.complete_tool("tu_flow");
    host.tick().unwrap();
    assert_eq!(board_status(&host, "sess_flow"), Some(DeckStatus::Working));

    fx.update_task("sess_flow", "completed", now_ms());
    host.tick().unwrap();
    assert_eq!(board_status(&host, "sess_flow"), Some(DeckStatus::Done));

    let led = host.led_frame().unwrap();
    let done = led.slots.iter().find(|s| s.rgb.is_some()).unwrap();
    assert_eq!(done.fx, LedFx::Solid);
    let rgb = done.rgb.unwrap();
    assert!(rgb[1] > 200);
}

#[test]
fn error_task_is_red() {
    let fx = Fixture::new();
    fx.insert_task("sess_error", "error", "/tmp/ws", now_ms());
    let mut host = fx.host();
    host.tick().unwrap();
    assert_eq!(board_status(&host, "sess_error"), Some(DeckStatus::Error));
    let led = host.led_frame().unwrap();
    let err = led.slots.iter().find(|s| s.rgb.is_some()).unwrap();
    let rgb = err.rgb.unwrap();
    assert!(rgb[0] > 200);
    assert!(rgb[1] < 80);
    assert_eq!(err.fx, LedFx::Solid);
}

#[test]
fn exclude_workspace_hides_self() {
    let fx = Fixture::new();
    fx.insert_task("sess_self", "running", "/self/excluded/project", now_ms());
    fx.insert_task("sess_other", "running", "/somewhere/else", now_ms());
    let mut host = host_of(HostConfig {
        exclude_workspaces: vec!["/self/excluded".into()],
        ..fx.config()
    });
    host.tick().unwrap();
    let board = host.board_state().unwrap();
    let ids: Vec<_> = board
        .slots
        .iter()
        .filter_map(|s| s.session_id.clone())
        .collect();
    assert!(!ids.contains(&"sess_self".to_string()));
    assert!(ids.contains(&"sess_other".to_string()));
}

#[test]
fn stale_requested_is_not_waiting() {
    let fx = Fixture::new();
    let recent = now_ms();
    let stale = recent - 31 * 60 * 1000;
    fx.insert_task("sess_stale", "running", "/tmp/ws", recent);
    fx.insert_tool("tu_stale", "sess_stale", "Bash", "shell", stale);
    let mut host = fx.host();
    host.tick().unwrap();
    assert_eq!(board_status(&host, "sess_stale"), Some(DeckStatus::Working));
}

#[test]
fn leds_frame_has_five_slots() {
    let fx = Fixture::new();
    fx.insert_task("sess_shape", "running", "/tmp/ws", now_ms());
    let mut host = fx.host();
    let (led, _) = host.tick().unwrap();
    let led = led.unwrap();
    assert_eq!(led.msg_type, "leds");
    assert_eq!(led.slots.len(), 5);
}

// The service.

#[test]
fn empty_db_shows_empty_board_not_demo() {
    let fx = Fixture::new();
    let svc = fx.service();
    assert!(!svc.using_demo());
    let board = svc.board_state();
    assert_eq!(board.msg_type, "board");
    assert!(board.slots.iter().all(|s| s.session_id.is_none()));
    let leds = svc.led_frame();
    assert_eq!(leds.msg_type, "leds");
    assert_eq!(leds.slots.len(), board.slots.len());
}

#[test]
fn set_focus_updates_board_focus() {
    let fx = Fixture::new();
    let t = now_ms();
    fx.insert_task("sess_a", "running", "/tmp", t);
    let mut svc = fx.service();
    svc.tick_at(t).unwrap();
    svc.set_focus_at(1, t);
    let board = svc.board_state();
    assert_eq!(board.focus, 1);
    assert_eq!(board.slots[1].focused, Some(true));
}

#[test]
fn dispatch_action_unknown_returns_unsupported() {
    let fx = Fixture::new();
    let mut svc = fx.service();
    assert_eq!(svc.dispatch_action("bogus"), "unsupported:unknown:bogus");
}

#[test]
fn dispatch_action_without_target_slot_is_unsupported() {
    let fx = Fixture::new();
    let mut svc = fx.service();
    let r = svc.dispatch_action("accept");
    assert!(r.starts_with("unsupported:"), "got: {r}");
    assert!(r.contains("empty_slot") || r.contains("no_observer"), "got: {r}");
}

#[test]
fn dispatch_action_routes_to_focused_slot_backend() {
    let fx = Fixture::new();
    let t = now_ms();
    fx.insert_task("sess_a", "running", "/tmp", t);
    let mut svc = fx.service();
    svc.set_auto_fill(true);
    svc.tick_at(t).unwrap();
    let board = svc.board_state();
    let bound = board.slots.iter().find(|s| s.session_id.is_some()).unwrap();
    assert_eq!(bound.backend, Some(BackendId::Zcode));
    let r = svc.dispatch_action("stop");
    assert!(r.starts_with("unsupported:stop"), "got: {r}");
    assert!(!r.contains("empty_slot"), "should have routed, got: {r}");
}

#[test]
fn real_sqlite_path_disables_demo() {
    let fx = Fixture::new();
    let t = now_ms();
    fx.insert_task("sess_real", "running", "/tmp", t);
    let mut svc = fx.service();
    svc.set_auto_fill(true);
    svc.tick_at(t).unwrap();
    assert!(!svc.using_demo());
    let board = svc.board_state();
    assert!(board
        .slots
        .iter()
        .any(|s| s.session_id.as_deref() == Some("sess_real") && s.status == DeckStatus::Working));
    let leds = svc.led_frame();
    let occupied = leds.slots.iter().find(|s| s.rgb.is_some()).unwrap();
    assert_eq!(occupied.fx, LedFx::Breathe);
}

#[test]
fn pin_slot_marks_board_and_persists() {
    let fx = Fixture::new();
    let pins_path = fx.dir.path().join("pins.json").to_str().unwrap().to_string();
    let t = now_ms();
    fx.insert_task("sess_pin", "running", "/tmp", t);

    let mut svc = DesktopService::new_with_pins_path(fx.host(), Some(pins_path.clone()), None);
    svc.tick_at(t).unwrap();
    let kept = svc.pin_slot(0, Some("sess_pin".into()));

    let board = svc.board_state();
    assert_eq!(board.slots[0].session_id.as_deref(), Some("sess_pin"));
    assert_eq!(board.slots[0].pinned, Some(true));
    let kept = kept.expect("pin_slot should keep the pins");
    assert_eq!(kept.path, pins_path);

    // The pin must survive a restart.
    let mut svc2 =
        DesktopService::new_with_pins_path(fx.host(), Some(pins_path), Some(kept.text));
    svc2.tick_at(t).unwrap();
    let board2 = svc2.board_state();
    assert_eq!(board2.slots[0].pinned, Some(true));
    assert_eq!(board2.slots[0].session_id.as_deref(), Some("sess_pin"));
}

#[test]
fn missing_codex_cli_does_not_break_zcode() {
    let fx = Fixture::new();
    let t = now_ms();
    fx.insert_task("sess_z", "running", "/tmp", t);
    let host = host_of(HostConfig {
        enable_codex: true,
        codex_cli_path: Some(fx.dir.path().join("no-such-codex").to_str().unwrap().to_string()),
        ..fx.config()
    });
    let mut svc = DesktopService::new_with_pins_path(host, None, None);
    svc.set_auto_fill(true);
    svc.tick_at(t).unwrap();
    assert!(!svc.using_demo());
    let board = svc.board_state();
    assert!(board
        .slots
        .iter()
        .any(|s| s.session_id.as_deref() == Some("sess_z")));
}

// WorkBuddy's database.

fn make_db(path: &Path) {
    let conn = Connection::open(path).unwrap();
    conn.execute_batch(
        "CREATE TABLE sessions (
            id TEXT PRIMARY KEY,
            title TEXT,
            custom_title TEXT,
            cwd TEXT,
            is_playground INTEGER,
            is_background_automation INTEGER,
            status TEXT,
            updated_at INTEGER,
            deleted_at INTEGER
        );
        CREATE TABLE automations (
            id TEXT PRIMARY KEY,
            name TEXT NOT NULL,
            prompt TEXT NOT NULL DEFAULT '',
            status TEXT NOT NULL DEFAULT 'ACTIVE',
            cwds TEXT NOT NULL DEFAULT '[]',
            deleted_at INTEGER
        );
        INSERT INTO sessions VALUES
            ('s1', '打招呼', 'ai 趋势', '/Users/x/WorkBuddy/2026-07-23-16-37-26', 1, 0, 'completed', 100, NULL),
            ('s2', 'only-ai', NULL, '/tmp/p', 0, 0, 'completed', 200, NULL),
            ('auto1', NULL, 'nvidia', '/Users/x/WorkBuddy/automation-2026-07-17-10-27-12', 0, 1, 'completed', 300, NULL),
            ('gone', 'deleted', 'x', '/tmp', 0, 0, 'completed', 1, 1);
        INSERT INTO automations (id, name, cwds, deleted_at) VALUES
            ('a1', 'nvidia 日报', '[\"/Users/x/WorkBuddy/automation-2026-07-17-10-27-12\"]', NULL);",
    )
    .unwrap();
}

fn session_rows(path: &Path) -> Vec<SessionRow> {
    let Ok(conn) = Connection::open_with_flags(path, OpenFlags::SQLITE_OPEN_READ_ONLY) else {
        return vec![];
    };
    let mut stmt = conn.prepare(SESSIONS_SQL).unwrap();
    let rows = stmt
        .query_map([], |row| {
            Ok(SessionRow {
                id: row.get(0)?,
                title: row.get(1)?,
                custom_title: row.get(2)?,
                cwd: row.get(3)?,
                is_playground: row.get(4)?,
                is_background_automation: row.get(5)?,
                status: row.get(6)?,
                updated_at: row.get(7)?,
            })
        })
        .unwrap();
    rows.map(|r| r.unwrap()).collect()
}

fn load_session_meta(path: &Path) -> TextMap<SessionMeta> {
    index_meta(&session_rows(path))
}

#[test]
fn loads_custom_title_over_title() {
    let dir = tempdir().unwrap();
    let db = dir.path().join("workbuddy.db");
    make_db(&db);
    assert_eq!(session_rows(&db).len(), 3);
    let map = load_session_meta(&db);
    assert!(!map.contains_key("gone"));
    assert_eq!(preferred_title(map.get("s1").unwrap()).as_deref(), Some("ai 趋势"));
    assert_eq!(preferred_title(map.get("s2").unwrap()).as_deref(), Some("only-ai"));
    assert!(map.get("s1").unwrap().is_playground);
    assert!(!map.get("s2").unwrap().is_playground);
    assert!(map.get("auto1").unwrap().is_background_automation);
}

#[test]
fn missing_db_is_empty() {
    let map = load_session_meta(Path::new("/no/such/workbuddy.db"));
    assert!(map.is_empty());
}

#[test]
fn automation_names_from_cwds() {
    let dir = tempdir().unwrap();
    let db = dir.path().join("workbuddy.db");
    make_db(&db);
    let conn = Connection::open(&db).unwrap();
    let mut stmt = conn.prepare(AUTOMATIONS_SQL).unwrap();
    let rows: Vec<(String, String)> = stmt
        .query_map([], |row| Ok((row.get(0)?, row.get(1)?)))
        .unwrap()
        .map(|r| r.unwrap())
        .collect();
    let names = automation_names(&rows);
    assert_eq!(
        names
            .get("/Users/x/WorkBuddy/automation-2026-07-17-10-27-12")
            .map(String::as_str),
        Some("nvidia 日报")
    );
}

#[test]
fn deleted_sessions_are_listed() {
    let dir = tempdir().unwrap();
    let db = dir.path().join("workbuddy.db");
    make_db(&db);
    let conn = Connection::open(&db).unwrap();
    let mut stmt = conn.prepare(DELETED_SQL).unwrap();
    let ids: Vec<String> =
        stmt.query_map([], |row| row.get(0)).unwrap().map(|r| r.unwrap()).collect();
    assert_eq!(ids, ["gone"]);
}
