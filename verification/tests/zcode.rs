//! ZCode: from task rows to what shows.
use agent_deck::protocol::{BackendId, DeckStatus, Risk};
use agent_deck::zcode::mapper::{infer_risk, map_zcode_row, risk_of_lower, ZcodeRow};
use agent_deck::zcode::observer::{
    attach_sql, path_for_sql, query_tasks_by_ids, task_row, ObserverError, SqliteObserver,
    SqliteObserverOptions, TaskRecord,
};

fn row_with_active(status: &str, waiting: i64, detail: Option<&str>, active: bool) -> ZcodeRow {
    ZcodeRow {
        task_id: "s1".into(),
        title: Some("test".into()),
        task_status: Some(status.into()),
        workspace_path: Some("/tmp".into()),
        updated_at: 1000,
        waiting,
        detail: detail.map(str::to_string),
        active,
    }
}

fn row(status: &str, waiting: i64, detail: Option<&str>) -> ZcodeRow {
    row_with_active(status, waiting, detail, false)
}

#[test]
fn running_no_waiting_is_working() {
    let s = map_zcode_row(&row("running", 0, None));
    assert_eq!(s.status, DeckStatus::Working);
    assert!(s.risk.is_none());
}

#[test]
fn running_waiting_bash_is_high() {
    let s = map_zcode_row(&row("running", 1, Some("Bash: shell")));
    assert_eq!(s.status, DeckStatus::Waiting);
    assert_eq!(s.risk, Some(Risk::High));
    assert_eq!(s.waiting_since, Some(1000));
}

#[test]
fn completed_idle_is_done() {
    assert_eq!(
        map_zcode_row(&row("completed", 0, None)).status,
        DeckStatus::Done
    );
}

#[test]
fn completed_but_active_is_working() {
    assert_eq!(
        map_zcode_row(&row_with_active("completed", 0, None, true)).status,
        DeckStatus::Working
    );
}

#[test]
fn error_is_error() {
    assert_eq!(
        map_zcode_row(&row("error", 0, None)).status,
        DeckStatus::Error
    );
}

#[test]
fn error_but_active_is_working() {
    assert_eq!(
        map_zcode_row(&row_with_active("error", 0, None, true)).status,
        DeckStatus::Working
    );
}

#[test]
fn askuser_is_low_risk() {
    assert_eq!(
        infer_risk(Some("AskUserQuestion: userInteraction")),
        Risk::Low
    );
}

#[test]
fn unknown_and_missing_statuses_are_idle() {
    assert_eq!(map_zcode_row(&row("paused", 0, None)).status, DeckStatus::Idle);
    let mut r = row("running", 0, None);
    r.task_status = None;
    let s = map_zcode_row(&r);
    assert_eq!(s.status, DeckStatus::Idle);
    assert_eq!(s.backend, BackendId::Zcode);
    assert_eq!(s.workspace_path.as_deref(), Some("/tmp"));
}

#[test]
fn request_words_set_the_risk() {
    assert_eq!(infer_risk(Some("Tool: GIT PUSH origin")), Risk::High);
    assert_eq!(infer_risk(None), Risk::Medium);
    assert_eq!(risk_of_lower("bash: shell"), Risk::High);
    assert_eq!(risk_of_lower("something else"), Risk::Medium);
}

#[test]
fn stored_rows_are_read_tolerantly() {
    let record = TaskRecord {
        task_id: "t".into(),
        title: None,
        task_status: Some("running".into()),
        workspace_path: None,
        updated_at: Some(-3),
        waiting: 1,
        detail: Some("Bash: ".into()),
        active: 7,
    };
    let r = task_row(&record);
    assert_eq!(r.updated_at, 0);
    assert!(r.active);
    assert_eq!(map_zcode_row(&r).status, DeckStatus::Waiting);
    let unknown = TaskRecord { updated_at: None, active: 0, ..record };
    assert_eq!(task_row(&unknown).updated_at, 0);
    assert!(!task_row(&unknown).active);
}

#[test]
fn quotes_are_doubled_for_sql() {
    assert_eq!(path_for_sql("/a/o'brien's"), "/a/o''brien''s");
    assert_eq!(attach_sql("/x/db.sqlite"), "ATTACH DATABASE '/x/db.sqlite' AS cli");
}

#[test]
fn queries_have_one_placeholder_per_id() {
    assert!(query_tasks_by_ids(1).contains("t.task_id IN (?)"));
    assert!(query_tasks_by_ids(3).contains("t.task_id IN (?, ?, ?)"));
    assert!(!query_tasks_by_ids(3).contains("LIMIT 20"));
    let obs = SqliteObserver::new(SqliteObserverOptions::for_home("/h"));
    assert!(obs.poll_sql().ends_with("LIMIT 20"));
    assert!(obs.catalog_sql().ends_with("LIMIT 500"));
    assert!(obs.poll_sql().contains("t.deleted = 0"));
}

#[test]
fn missing_databases_matter_only_when_asked_for() {
    let lenient = SqliteObserver::new(SqliteObserverOptions::for_home("/h"));
    assert_eq!(lenient.open(true, false), Ok(false));
    assert_eq!(lenient.open(true, true), Ok(true));
    assert_eq!(lenient.options().tasks_db_path, "/h/.zcode/v2/tasks-index.sqlite");
    let strict = SqliteObserver::new(SqliteObserverOptions {
        fail_on_missing: true,
        ..SqliteObserverOptions::for_home("/h")
    });
    assert_eq!(
        strict.open(false, true),
        Err(ObserverError::MissingDb { tasks: false, tool: true })
    );
    assert_eq!(strict.open(true, true), Ok(true));
}

#[test]
fn without_a_connection_the_last_poll_stays() {
    let mut obs = SqliteObserver::new(SqliteObserverOptions {
        exclude_task_ids: vec!["hidden".into()],
        ..SqliteObserverOptions::for_home("/h")
    });
    let rows = vec![row("running", 0, None)];
    assert!(obs.poll_once(&rows).is_empty());
    assert!(obs.catalog_once(&rows).is_empty());
    obs.set_connected();
    assert!(obs.is_connected());
    let mut hidden = row("error", 0, None);
    hidden.task_id = "hidden".into();
    assert_eq!(obs.poll_once(&vec![hidden, row("running", 0, None)]).len(), 1);
    assert_eq!(obs.last_snapshots()[0].session_id, "s1");
    assert_eq!(obs.poll_pinned_once(&["s1".to_string()], &rows).len(), 1);
    assert!(obs.poll_pinned_once(&[], &rows).is_empty());
}
