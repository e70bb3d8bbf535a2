//! The ZCode observer: the queries it makes, and which of the tasks found show
//! on the board, in the bind picker and on pinned keys.
use crate::lists;
use crate::protocol;
use crate::protocol::{SessionSnapshot, SnapshotView};
use crate::selection;
use crate::text;
use crate::zcode::mapper;
use crate::zcode::mapper::{map_zcode_row, RowView, ZcodeRow};
use vstd::prelude::*;

verus! {

/// How long a request for approval counts. ZCode does not always mark the end
/// of a tool call, so older rows are left-overs.
pub const STALE_WINDOW_SECS: u64 = 1_800;

/// How long a running tool counts as work.
pub const ACTIVE_WINDOW_SECS: u64 = 300;

/// How long any use of a tool counts as work, so that a key does not flicker
/// between two calls.
pub const RECENT_ACTIVITY_SECS: u64 = 180;

/// Query text up to the window of requests for approval.
pub const SQL_BEFORE_STALE: &'static str = "
SELECT
  t.task_id,
  t.title,
  t.task_status,
  t.workspace_path,
  t.updated_at,
  CASE WHEN EXISTS(
    SELECT 1 FROM cli.tool_usage tu
    WHERE tu.session_id = t.task_id
      AND tu.approval_status = 'requested'
      AND tu.status = 'running'
      AND tu.completed_at IS NULL
      AND tu.started_at > (strftime('%s','now') - ";

/// Query text up to the window of running tools.
pub const SQL_BEFORE_ACTIVE: &'static str = ") * 1000
  ) THEN 1 ELSE 0 END AS waiting,
  (
    SELECT tu.tool_name || ': ' || COALESCE(tu.side_effect_scope, '')
    FROM cli.tool_usage tu
    WHERE tu.session_id = t.task_id
      AND tu.approval_status = 'requested'
      AND tu.status = 'running'
      AND tu.completed_at IS NULL
    ORDER BY tu.started_at DESC
    LIMIT 1
  ) AS detail,
  CASE WHEN EXISTS(
    SELECT 1 FROM cli.tool_usage tu
    WHERE tu.session_id = t.task_id
      AND tu.status = 'running'
      AND tu.completed_at IS NULL
      AND tu.started_at > (strftime('%s','now') - ";

/// Query text up to the window of recent use.
pub const SQL_BEFORE_RECENT: &'static str = ") * 1000
  ) OR EXISTS(
    SELECT 1 FROM cli.tool_usage tu
    WHERE tu.session_id = t.task_id
      AND tu.started_at > (strftime('%s','now') - ";

/// Query text up to the condition.
pub const SQL_BEFORE_WHERE: &'static str = ") * 1000
  ) THEN 1 ELSE 0 END AS active
FROM tasks t
WHERE ";

/// Query text that leaves out deleted and archived tasks.
pub const SQL_LIVE: &'static str = "
  AND t.deleted = 0
  AND t.archived = 0
";

/// Query text up to the number of tasks.
pub const SQL_NEWEST: &'static str = "ORDER BY t.updated_at DESC
LIMIT ";

/// The columns of a task with what its tool calls say of it, up to the condition.
pub open spec fn projection() -> Seq<char> {
    SQL_BEFORE_STALE@ + text::decimal(STALE_WINDOW_SECS as nat) + SQL_BEFORE_ACTIVE@
        + text::decimal(ACTIVE_WINDOW_SECS as nat) + SQL_BEFORE_RECENT@ + text::decimal(
        RECENT_ACTIVITY_SECS as nat,
    ) + SQL_BEFORE_WHERE@
}

/// The query for the newest `limit` live tasks that meet a condition.
pub open spec fn newest_query(condition: Seq<char>, limit: nat) -> Seq<char> {
    projection() + condition + SQL_LIVE@ + SQL_NEWEST@ + text::decimal(limit)
}

/// `n` placeholders of a query.
pub open spec fn placeholders(n: nat) -> Seq<char>
    decreases n,
{
    if n == 0 {
        Seq::empty()
    } else if n == 1 {
        "?"@
    } else {
        placeholders((n - 1) as nat) + ", ?"@
    }
}

/// The query for `n` live tasks by their ids.
pub open spec fn ids_query(n: nat) -> Seq<char> {
    projection() + "t.task_id IN ("@ + placeholders(n) + ")"@ + SQL_LIVE@
}

/// The columns of a task, up to the condition.
fn project() -> (r: String)
    ensures
        r@ == projection(),
{
    let mut s = SQL_BEFORE_STALE.to_string();
    s.append(text::to_decimal(STALE_WINDOW_SECS).as_str());
    s.append(SQL_BEFORE_ACTIVE);
    s.append(text::to_decimal(ACTIVE_WINDOW_SECS).as_str());
    s.append(SQL_BEFORE_RECENT);
    s.append(text::to_decimal(RECENT_ACTIVITY_SECS).as_str());
    s.append(SQL_BEFORE_WHERE);
    s
}

/// The query for the newest `limit` live tasks that meet a condition.
pub fn query_tasks(condition: &str, limit: u64) -> (r: String)
    ensures
        r@ == newest_query(condition@, limit as nat),
{
    let mut s = project();
    s.append(condition);
    s.append(SQL_LIVE);
    s.append(SQL_NEWEST);
    s.append(text::to_decimal(limit).as_str());
    s
}

/// The query for `n` live tasks by their ids, one placeholder each.
pub fn query_tasks_by_ids(n: usize) -> (r: String)
    ensures
        r@ == ids_query(n as nat),
{
    let mut s = project();
    s.append("t.task_id IN (");
    let ghost start = s@;
    let mut i: usize = 0;
    assert(s@ =~= start + placeholders(0));
    while i < n
        invariant
            i <= n,
            s@ == start + placeholders(i as nat),
        decreases n - i,
    {
        let ghost before = s@;
        if i == 0 {
            s.append("?");
            assert(s@ =~= start + placeholders(1));
        } else {
            s.append(", ?");
            assert(s@ =~= start + placeholders((i + 1) as nat));
        }
        i = i + 1;
    }
    s.append(")");
    s.append(SQL_LIVE);
    s
}

/// A text with its quotes doubled, as SQL wants them inside a literal.
pub open spec fn quoted(s: Seq<char>) -> Seq<char>
    decreases s.len(),
{
    if s.len() == 0 {
        s
    } else if s.last() == '\'' {
        quoted(s.drop_last()).push('\'').push('\'')
    } else {
        quoted(s.drop_last()).push(s.last())
    }
}

/// The text that the inside of an SQL literal stands for: a doubled quote is one quote.
pub open spec fn unquoted(s: Seq<char>) -> Seq<char>
    decreases s.len(),
{
    if s.len() == 0 {
        s
    } else if s.len() >= 2 && s.last() == '\'' && s[s.len() - 2] == '\'' {
        unquoted(s.drop_last().drop_last()).push('\'')
    } else {
        unquoted(s.drop_last()).push(s.last())
    }
}

/// Reading a quoted text gives the text back.
pub proof fn lemma_quoting_is_read_back(s: Seq<char>)
    ensures
        unquoted(quoted(s)) == s,
    decreases s.len(),
{
    if s.len() > 0 {
        let t = s.drop_last();
        lemma_quoting_is_read_back(t);
        let q = quoted(s);
        if s.last() == '\'' {
            assert(q.drop_last().drop_last() =~= quoted(t));
            assert(unquoted(q) == unquoted(quoted(t)).push('\''));
        } else {
            assert(q.drop_last() =~= quoted(t));
            assert(unquoted(q) == unquoted(quoted(t)).push(s.last()));
        }
        assert(t.push(s.last()) =~= s);
    }
}

/// A path with its quotes doubled, as SQL wants them inside a literal.
pub fn path_for_sql(path: &str) -> (r: String)
    ensures
        r@ == quoted(path@),
{
    let mut r = String::new();
    assert(r@ == quoted(path@.take(0)));
    for c in it: path.chars()
        invariant
            it.seq() == path@,
            r@ == quoted(path@.take(it.index() as int)),
    {
        assert(path@.take(it.index() as int + 1).drop_last() == path@.take(it.index() as int));
        r.push(c);
        if c == '\'' {
            r.push(c);
        }
    }
    assert(path@.take(path@.len() as int) == path@);
    r
}

/// The statement that attaches the tool database.
pub fn attach_sql(tool_db_path: &str) -> (r: String)
    ensures
        r@ == "ATTACH DATABASE '"@ + quoted(tool_db_path@) + "' AS cli"@,
{
    let mut s = "ATTACH DATABASE '".to_string();
    s.append(path_for_sql(tool_db_path).as_str());
    s.append("' AS cli");
    s
}

/// One row of the task query as it is stored.
#[derive(Debug)]
pub struct TaskRecord {
    pub task_id: String,
    pub title: Option<String>,
    pub task_status: Option<String>,
    pub workspace_path: Option<String>,
    /// None when the column holds no whole number.
    pub updated_at: Option<i64>,
    pub waiting: i64,
    pub detail: Option<String>,
    pub active: i64,
}

/// What a record says: a missing or negative time counts as 0, any number but 0 as true.
pub open spec fn row_of(t: TaskRecord) -> RowView {
    RowView {
        task_id: t.task_id@,
        title: text::opt(t.title),
        task_status: text::opt(t.task_status),
        workspace_path: text::opt(t.workspace_path),
        updated_at: match t.updated_at {
            Some(v) => if v > 0 {
                v as u64
            } else {
                0
            },
            None => 0,
        },
        waiting: t.waiting,
        detail: text::opt(t.detail),
        active: t.active != 0,
    }
}

/// What a record says.
pub fn task_row(t: &TaskRecord) -> (r: ZcodeRow)
    ensures
        r@ == row_of(*t),
{
    let updated_at: u64 = match t.updated_at {
        Some(v) => if v > 0 {
            v as u64
        } else {
            0
        },
        None => 0,
    };
    ZcodeRow {
        task_id: t.task_id.clone(),
        title: text::clone_opt(&t.title),
        task_status: text::clone_opt(&t.task_status),
        workspace_path: text::clone_opt(&t.workspace_path),
        updated_at,
        waiting: t.waiting,
        detail: text::clone_opt(&t.detail),
        active: t.active != 0,
    }
}

/// Why the observer could not be opened.
#[derive(Debug, PartialEq)]
pub enum ObserverError {
    /// Which of the two databases is there.
    MissingDb { tasks: bool, tool: bool },
}

/// Where the observer looks, and what it leaves out.
#[derive(Debug, Clone)]
pub struct SqliteObserverOptions {
    pub tasks_db_path: String,
    pub tool_db_path: String,
    pub exclude_workspaces: Vec<String>,
    pub exclude_task_ids: Vec<String>,
    /// Fail when a database is missing, instead of showing nothing.
    pub fail_on_missing: bool,
}

impl SqliteObserverOptions {
    /// The usual options for a home directory.
    pub fn for_home(home: &str) -> (r: SqliteObserverOptions)
        ensures
            r.tasks_db_path@ == protocol::joined(home@, ".zcode/v2/tasks-index.sqlite"@),
            r.tool_db_path@ == protocol::joined(home@, ".zcode/cli/db/db.sqlite"@),
            r.exclude_workspaces@.len() == 0,
            r.exclude_task_ids@.len() == 0,
            !r.fail_on_missing,
    {
        SqliteObserverOptions {
            tasks_db_path: protocol::join_path(home, ".zcode/v2/tasks-index.sqlite"),
            tool_db_path: protocol::join_path(home, ".zcode/cli/db/db.sqlite"),
            exclude_workspaces: Vec::new(),
            exclude_task_ids: Vec::new(),
            fail_on_missing: false,
        }
    }
}

/// The contents of a list of rows.
pub open spec fn row_views(rows: Seq<ZcodeRow>) -> Seq<RowView> {
    rows.map_values(|r: ZcodeRow| r@)
}

/// The observer's own state. The connection itself is held by whoever runs the queries.
pub struct SqliteObserver {
    opts: SqliteObserverOptions,
    connected: bool,
    last_snapshots: Vec<SessionSnapshot>,
}

/// The content of a `SqliteObserver`.
#[verifier::ext_equal]
pub struct ObserverView {
    pub tasks_db_path: Seq<char>,
    pub tool_db_path: Seq<char>,
    pub fail_on_missing: bool,
    pub exclude_workspaces: Seq<Seq<char>>,
    pub exclude_task_ids: Seq<Seq<char>>,
    pub connected: bool,
    pub last: Seq<SnapshotView>,
}

impl View for SqliteObserver {
    type V = ObserverView;

    closed spec fn view(&self) -> ObserverView {
        ObserverView {
            tasks_db_path: self.opts.tasks_db_path@,
            tool_db_path: self.opts.tool_db_path@,
            fail_on_missing: self.opts.fail_on_missing,
            exclude_workspaces: text::texts(self.opts.exclude_workspaces@),
            exclude_task_ids: text::texts(self.opts.exclude_task_ids@),
            connected: self.connected,
            last: protocol::snapshots(self.last_snapshots@),
        }
    }
}

impl ObserverView {
    /// What shows of these rows, in their order: all but the excluded ones.
    pub open spec fn shown(self, rows: Seq<RowView>) -> Seq<SnapshotView> {
        rows.map_values(|r: RowView| mapper::snapshot_of(r)).filter(
            |s: SnapshotView|
                !selection::excluded(s, self.exclude_task_ids, self.exclude_workspaces),
        )
    }
}

impl SqliteObserver {
    /// An observer that is not connected yet.
    pub fn new(opts: SqliteObserverOptions) -> (r: SqliteObserver)
        ensures
            r@ == (ObserverView {
                tasks_db_path: opts.tasks_db_path@,
                tool_db_path: opts.tool_db_path@,
                fail_on_missing: opts.fail_on_missing,
                exclude_workspaces: text::texts(opts.exclude_workspaces@),
                exclude_task_ids: text::texts(opts.exclude_task_ids@),
                connected: false,
                last: Seq::empty(),
            }),
    {
        let r = SqliteObserver { opts, connected: false, last_snapshots: Vec::new() };
        assert(r@.last =~= Seq::empty());
        r
    }

    /// The options.
    pub fn options(&self) -> (r: &SqliteObserverOptions)
        ensures
            r.tasks_db_path@ == self@.tasks_db_path,
            r.tool_db_path@ == self@.tool_db_path,
            r.fail_on_missing == self@.fail_on_missing,
            text::texts(r.exclude_workspaces@) == self@.exclude_workspaces,
            text::texts(r.exclude_task_ids@) == self@.exclude_task_ids,
    {
        &self.opts
    }

    /// Whether to connect, given which databases are there: both are needed. A
    /// missing one is an error only if the options ask for it.
    pub fn open(&self, tasks_exists: bool, tool_exists: bool) -> (r: Result<bool, ObserverError>)
        ensures
            match r {
                Ok(connect) => connect == (tasks_exists && tool_exists) && (connect
                    || !self@.fail_on_missing),
                Err(ObserverError::MissingDb { tasks, tool }) => self@.fail_on_missing && !(
                tasks_exists && tool_exists) && tasks == tasks_exists && tool == tool_exists,
            },
    {
        if !tasks_exists || !tool_exists {
            if self.opts.fail_on_missing {
                return Err(ObserverError::MissingDb { tasks: tasks_exists, tool: tool_exists });
            }
            return Ok(false);
        }
        Ok(true)
    }

    /// Takes note that the databases are connected.
    pub fn set_connected(&mut self)
        ensures
            final(self)@ == (ObserverView { connected: true, ..old(self)@ }),
    {
        self.connected = true;
    }

    /// Whether the databases are connected.
    pub fn is_connected(&self) -> (r: bool)
        ensures
            r == self@.connected,
    {
        self.connected
    }

    /// The query of the board: recent tasks that run or have ended.
    pub fn poll_sql(&self) -> (r: String)
        ensures
            r@ == newest_query("t.task_status IN ('running', 'completed', 'error')"@, 20),
    {
        query_tasks("t.task_status IN ('running', 'completed', 'error')", 20)
    }

    /// The query of the bind picker: any live task, with a longer history.
    pub fn catalog_sql(&self) -> (r: String)
        ensures
            r@ == newest_query("1=1"@, 500),
    {
        query_tasks("1=1", 500)
    }

    /// Whether a session is excluded by its id or by its workspace.
    fn is_excluded(&self, snap: &SessionSnapshot) -> (r: bool)
        ensures
            r == selection::excluded(
                snap@,
                self@.exclude_task_ids,
                self@.exclude_workspaces,
            ),
    {
        selection::session_excluded(
            snap,
            &self.opts.exclude_task_ids,
            &self.opts.exclude_workspaces,
        )
    }

    /// What shows of these rows.
    fn map_rows(&self, rows: &Vec<ZcodeRow>) -> (r: Vec<SessionSnapshot>)
        ensures
            protocol::snapshots(r@) == self@.shown(row_views(rows@)),
    {
        let ghost ids = self@.exclude_task_ids;
        let ghost workspaces = self@.exclude_workspaces;
        let ghost keep = |s: SnapshotView| !selection::excluded(s, ids, workspaces);
        let ghost all = row_views(rows@).map_values(|r: RowView| mapper::snapshot_of(r));
        let mut out: Vec<SessionSnapshot> = Vec::new();
        let mut i: usize = 0;
        proof {
            lists::lemma_filter_none(all, keep);
            assert(protocol::snapshots(out@) =~= Seq::<SnapshotView>::empty());
        }
        while i < rows.len()
            invariant
                i <= rows@.len(),
                ids == self@.exclude_task_ids,
                workspaces == self@.exclude_workspaces,
                keep == (|s: SnapshotView| !selection::excluded(s, ids, workspaces)),
                all == row_views(rows@).map_values(|r: RowView| mapper::snapshot_of(r)),
                protocol::snapshots(out@) == all.take(i as int).filter(keep),
            decreases rows@.len() - i,
        {
            proof {
                lists::lemma_filter_next(all, keep, i as int);
            }
            let snap = map_zcode_row(&rows[i]);
            assert(all[i as int] == snap@);
            if !self.is_excluded(&snap) {
                let ghost had = out@;
                out.push(snap);
                assert(protocol::snapshots(out@) =~= protocol::snapshots(had).push(snap@));
            }
            i = i + 1;
        }
        assert(all.take(i as int) == all);
        out
    }

    /// What shows on the board. Without a connection it is what showed last.
    pub fn poll_once(&mut self, rows: &Vec<ZcodeRow>) -> (r: Vec<SessionSnapshot>)
        ensures
            protocol::snapshots(r@) == (if old(self)@.connected {
                old(self)@.shown(row_views(rows@))
            } else {
                old(self)@.last
            }),
            final(self)@ == (ObserverView { last: protocol::snapshots(r@), ..old(self)@ }),
    {
        if !self.connected {
            return protocol::clone_snapshots(&self.last_snapshots);
        }
        let snaps = self.map_rows(rows);
        self.last_snapshots = protocol::clone_snapshots(&snaps);
        snaps
    }

    /// What shows in the bind picker; nothing without a connection.
    pub fn catalog_once(&self, rows: &Vec<ZcodeRow>) -> (r: Vec<SessionSnapshot>)
        ensures
            protocol::snapshots(r@) == (if self@.connected {
                self@.shown(row_views(rows@))
            } else {
                Seq::empty()
            }),
    {
        if !self.connected {
            let r: Vec<SessionSnapshot> = Vec::new();
            assert(protocol::snapshots(r@) =~= Seq::<SnapshotView>::empty());
            return r;
        }
        self.map_rows(rows)
    }

    /// The latest state of the tasks that were asked for by their ids; nothing
    /// without a connection, or when none was asked for.
    pub fn poll_pinned_once(&self, ids: &[String], rows: &Vec<ZcodeRow>) -> (r: Vec<
        SessionSnapshot,
    >)
        ensures
            protocol::snapshots(r@) == (if ids@.len() > 0 && self@.connected {
                self@.shown(row_views(rows@))
            } else {
                Seq::empty()
            }),
    {
        if ids.len() == 0 || !self.connected {
            let r: Vec<SessionSnapshot> = Vec::new();
            assert(protocol::snapshots(r@) =~= Seq::<SnapshotView>::empty());
            return r;
        }
        self.map_rows(rows)
    }

    /// What the last poll showed.
    pub fn last_snapshots(&self) -> (r: &Vec<SessionSnapshot>)
        ensures
            protocol::snapshots(r@) == self@.last,
    {
        &self.last_snapshots
    }
}

/// Excluded tasks never show.
pub proof fn lemma_excluded_tasks_do_not_show(o: ObserverView, rows: Seq<RowView>, x: SnapshotView)
    requires
        selection::excluded(x, o.exclude_task_ids, o.exclude_workspaces),
    ensures
        !o.shown(rows).contains(x),
{
    lists::lemma_filter_contains(
        rows.map_values(|r: RowView| mapper::snapshot_of(r)),
        |s: SnapshotView| !selection::excluded(s, o.exclude_task_ids, o.exclude_workspaces),
    );
}

/// Each task that is not left out shows as its own row says, in the order of the
/// rows.
pub proof fn lemma_rows_that_show(o: ObserverView, rows: Seq<RowView>) -> (places: Seq<int>)
    ensures
        places.len() == o.shown(rows).len(),
        forall|a: int|
            0 <= a < places.len() ==> 0 <= #[trigger] places[a] < rows.len() && o.shown(rows)[a]
                == mapper::snapshot_of(rows[places[a]]) && !selection::excluded(
                o.shown(rows)[a],
                o.exclude_task_ids,
                o.exclude_workspaces,
            ),
        forall|a: int, b: int|
            0 <= a < b < places.len() ==> #[trigger] places[a] < #[trigger] places[b],
        forall|i: int|
            0 <= i < rows.len() && !selection::excluded(
                mapper::snapshot_of(#[trigger] rows[i]),
                o.exclude_task_ids,
                o.exclude_workspaces,
            ) ==> places.contains(i),
{
    let all = rows.map_values(|r: RowView| mapper::snapshot_of(r));
    let keep = |s: SnapshotView|
        !selection::excluded(s, o.exclude_task_ids, o.exclude_workspaces);
    let places = lists::lemma_filter_places(all, keep);
    assert forall|i: int|
        0 <= i < rows.len() && !selection::excluded(
            mapper::snapshot_of(#[trigger] rows[i]),
            o.exclude_task_ids,
            o.exclude_workspaces,
        ) implies places.contains(i) by {
        assert(all[i] == mapper::snapshot_of(rows[i]));
    }
    places
}

/// A row keeps the fields of its record; a time that is missing or before the
/// epoch counts as the epoch, and any number but zero means activity.
pub proof fn lemma_record_is_read_field_by_field(t: TaskRecord)
    ensures
        ({
            let r = row_of(t);
            &&& r.task_id == t.task_id@
            &&& r.title == text::opt(t.title)
            &&& r.task_status == text::opt(t.task_status)
            &&& r.workspace_path == text::opt(t.workspace_path)
            &&& r.detail == text::opt(t.detail)
            &&& r.waiting == t.waiting
            &&& r.active <==> t.active != 0
            &&& (t.updated_at matches Some(v) && v >= 0) ==> r.updated_at == t.updated_at->0
            &&& !(t.updated_at matches Some(v) && v >= 0) ==> r.updated_at == 0
        }),
{
}

proof fn lemma_query_names_its_windows()
    ensures
        projection() == SQL_BEFORE_STALE@ + "1800"@ + SQL_BEFORE_ACTIVE@ + "300"@
            + SQL_BEFORE_RECENT@ + "180"@ + SQL_BEFORE_WHERE@,
{
    reveal_strlit("1800");
    reveal_strlit("300");
    reveal_strlit("180");
    reveal_with_fuel(text::decimal, 5);
    text::lemma_decimal_digit_by_digit(1, 8);
    text::lemma_decimal_digit_by_digit(18, 0);
    text::lemma_decimal_digit_by_digit(180, 0);
    text::lemma_decimal_digit_by_digit(3, 0);
    text::lemma_decimal_digit_by_digit(30, 0);
    assert(text::decimal(1800) =~= "1800"@);
    assert(text::decimal(300) =~= "300"@);
    assert(text::decimal(180) =~= "180"@);
}

/// The query for the newest tasks asks for the live ones under the condition, the
/// latest first, and for no more than the limit; the query for given tasks has a
/// place for each id. Both name the three windows, half an hour, five minutes and
/// three minutes, in seconds.
pub proof fn lemma_queries(condition: Seq<char>, limit: nat, n: nat)
    ensures
        newest_query(condition, limit) == SQL_BEFORE_STALE@ + "1800"@ + SQL_BEFORE_ACTIVE@
            + "300"@ + SQL_BEFORE_RECENT@ + "180"@ + SQL_BEFORE_WHERE@ + condition + SQL_LIVE@
            + SQL_NEWEST@ + text::decimal(limit),
        ids_query(n) == SQL_BEFORE_STALE@ + "1800"@ + SQL_BEFORE_ACTIVE@ + "300"@
            + SQL_BEFORE_RECENT@ + "180"@ + SQL_BEFORE_WHERE@ + "t.task_id IN ("@ + placeholders(n)
            + ")"@ + SQL_LIVE@,
        placeholders(0).len() == 0,
        placeholders(1) == "?"@,
        n > 0 ==> placeholders(n + 1) == placeholders(n) + ", ?"@,
{
    lemma_query_names_its_windows();
}

/// Quoting goes character by character: a quote is doubled and anything else
/// stays.
pub proof fn lemma_quoted_char_by_char(s: Seq<char>, c: char)
    ensures
        c == '\'' ==> quoted(s.push(c)) == quoted(s).push('\'').push('\''),
        c != '\'' ==> quoted(s.push(c)) == quoted(s).push(c),
        quoted(Seq::empty()).len() == 0,
{
    assert(s.push(c).drop_last() =~= s);
}

} // verus!
