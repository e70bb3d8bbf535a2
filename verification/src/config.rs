//! What the deck observes, and where it keeps its own files.
use crate::codex::observer::CodexObserverOptions;
use crate::protocol;
use crate::text;
use crate::workbuddy::observer::JsonlObserverOptions;
use crate::zcode::observer::SqliteObserverOptions;
use vstd::prelude::*;

verus! {

/// What the host observes.
#[derive(Debug, Clone)]
pub struct HostConfig {
    pub tasks_db_path: String,
    pub tool_db_path: String,
    pub exclude_workspaces: Vec<String>,
    pub exclude_task_ids: Vec<String>,
    pub slot_count: usize,
    /// Observe Codex too. Nothing shows if its program is missing.
    pub enable_codex: bool,
    /// The Codex program; looked for when not given.
    pub codex_cli_path: Option<String>,
    /// Observe WorkBuddy too. Nothing shows if its logs are missing.
    pub enable_workbuddy: bool,
    /// WorkBuddy's session logs; at the usual place when not given.
    pub workbuddy_projects_dir: Option<String>,
}

/// The content of a `HostConfig`.
#[verifier::ext_equal]
pub struct ConfigView {
    pub tasks_db_path: Seq<char>,
    pub tool_db_path: Seq<char>,
    pub exclude_workspaces: Seq<Seq<char>>,
    pub exclude_task_ids: Seq<Seq<char>>,
    pub slot_count: int,
    pub enable_codex: bool,
    pub codex_cli_path: Option<Seq<char>>,
    pub enable_workbuddy: bool,
    pub workbuddy_projects_dir: Option<Seq<char>>,
}

impl View for HostConfig {
    type V = ConfigView;

    open spec fn view(&self) -> ConfigView {
        ConfigView {
            tasks_db_path: self.tasks_db_path@,
            tool_db_path: self.tool_db_path@,
            exclude_workspaces: text::texts(self.exclude_workspaces@),
            exclude_task_ids: text::texts(self.exclude_task_ids@),
            slot_count: self.slot_count as int,
            enable_codex: self.enable_codex,
            codex_cli_path: text::opt(self.codex_cli_path),
            enable_workbuddy: self.enable_workbuddy,
            workbuddy_projects_dir: text::opt(self.workbuddy_projects_dir),
        }
    }
}

/// The configuration for a home directory: all backends at their usual places,
/// nothing left out, and eight keys. The paths of ZCode's databases can be given.
pub open spec fn config_for(
    home: Seq<char>,
    tasks_db: Option<Seq<char>>,
    tool_db: Option<Seq<char>>,
) -> ConfigView {
    ConfigView {
        tasks_db_path: match tasks_db {
            Some(p) => p,
            None => protocol::joined(home, ".zcode/v2/tasks-index.sqlite"@),
        },
        tool_db_path: match tool_db {
            Some(p) => p,
            None => protocol::joined(home, ".zcode/cli/db/db.sqlite"@),
        },
        exclude_workspaces: Seq::empty(),
        exclude_task_ids: Seq::empty(),
        slot_count: 8,
        enable_codex: true,
        codex_cli_path: None,
        enable_workbuddy: true,
        workbuddy_projects_dir: None,
    }
}

/// The configuration of the desktop application, given the home directory and
/// the values of `AGENT_DECK_TASKS_DB` and `AGENT_DECK_TOOL_DB`.
pub fn default_config(home: &str, tasks_db: Option<String>, tool_db: Option<String>) -> (r:
    HostConfig)
    ensures
        r@ == config_for(home@, text::opt(tasks_db), text::opt(tool_db)),
{
    let r = HostConfig {
        tasks_db_path: match tasks_db {
            Some(p) => p,
            None => protocol::join_path(home, ".zcode/v2/tasks-index.sqlite"),
        },
        tool_db_path: match tool_db {
            Some(p) => p,
            None => protocol::join_path(home, ".zcode/cli/db/db.sqlite"),
        },
        exclude_workspaces: Vec::new(),
        exclude_task_ids: Vec::new(),
        slot_count: 8,
        enable_codex: true,
        codex_cli_path: None,
        enable_workbuddy: true,
        workbuddy_projects_dir: None,
    };
    assert(r@.exclude_workspaces =~= Seq::empty());
    assert(r@.exclude_task_ids =~= Seq::empty());
    r
}

/// The observers that a configuration asks for, in the order in which they are asked.
#[derive(Debug)]
pub struct ObserverPlan {
    pub zcode: SqliteObserverOptions,
    pub codex: Option<CodexObserverOptions>,
    pub workbuddy: Option<JsonlObserverOptions>,
}

impl HostConfig {
    /// The configuration for a home directory.
    pub fn for_home(home: &str) -> (r: HostConfig)
        ensures
            r@ == config_for(home@, None, None),
    {
        default_config(home, None, None)
    }

    /// The observers that the configuration asks for. ZCode is always observed,
    /// and none of them fails because what it observes is missing.
    pub fn observers(&self, home: &str, unix: bool) -> (r: ObserverPlan)
        ensures
            r.zcode.tasks_db_path@ == self@.tasks_db_path,
            r.zcode.tool_db_path@ == self@.tool_db_path,
            text::texts(r.zcode.exclude_workspaces@) == self@.exclude_workspaces,
            text::texts(r.zcode.exclude_task_ids@) == self@.exclude_task_ids,
            !r.zcode.fail_on_missing,
            r.codex is Some <==> self@.enable_codex,
            r.codex matches Some(c) ==> {
                &&& text::opt(c.cli_path) == self@.codex_cli_path
                &&& c.recency_window_secs == 86_400
                &&& c.max_threads == 20
                &&& c.catalog_max_threads == 200
                &&& c.catalog_recency_window_secs == 7_776_000
                &&& c.enable_ipc == unix
            },
            r.workbuddy is Some <==> self@.enable_workbuddy,
            r.workbuddy matches Some(w) ==> {
                &&& w.projects_dir@ == (match self@.workbuddy_projects_dir {
                    Some(d) => d,
                    None => protocol::joined(home@, ".workbuddy/projects"@),
                })
                &&& w.db_path@ == protocol::joined(home@, ".workbuddy/workbuddy.db"@)
                &&& text::texts(w.exclude_workspaces@) == self@.exclude_workspaces
                &&& text::texts(w.exclude_task_ids@) == self@.exclude_task_ids
                &&& !w.fail_on_missing
                &&& w.max_sessions == 20
                &&& w.catalog_max_sessions == 500
            },
    {
        let zcode = SqliteObserverOptions {
            tasks_db_path: self.tasks_db_path.clone(),
            tool_db_path: self.tool_db_path.clone(),
            exclude_workspaces: text::clone_texts(&self.exclude_workspaces),
            exclude_task_ids: text::clone_texts(&self.exclude_task_ids),
            fail_on_missing: false,
        };
        let codex = if self.enable_codex {
            let mut c = CodexObserverOptions::usual(unix);
            c.cli_path = text::clone_opt(&self.codex_cli_path);
            Some(c)
        } else {
            None
        };
        let workbuddy = if self.enable_workbuddy {
            let mut w = JsonlObserverOptions::for_home(home);
            if let Some(d) = &self.workbuddy_projects_dir {
                w.projects_dir = d.clone();
            }
            w.exclude_workspaces = text::clone_texts(&self.exclude_workspaces);
            w.exclude_task_ids = text::clone_texts(&self.exclude_task_ids);
            Some(w)
        } else {
            None
        };
        ObserverPlan { zcode, codex, workbuddy }
    }
}

/// Where the pins are kept.
pub fn default_pins_path(home: &str) -> (r: String)
    ensures
        r@ == protocol::joined(home@, ".agent-deck/pins.json"@),
{
    protocol::join_path(home, ".agent-deck/pins.json")
}

/// Where the settings are kept.
pub fn default_settings_path(home: &str) -> (r: String)
    ensures
        r@ == protocol::joined(home@, ".agent-deck/settings.json"@),
{
    protocol::join_path(home, ".agent-deck/settings.json")
}

/// A path that is given counts as it is; else the database is in its place below
/// the home folder. Eight keys, both other backends, and nothing left out.
pub proof fn lemma_config_of_a_home(
    home: Seq<char>,
    tasks_db: Option<Seq<char>>,
    tool_db: Option<Seq<char>>,
)
    requires
        home.len() > 0,
        home.last() != '/',
    ensures
        ({
            let c = config_for(home, tasks_db, tool_db);
            &&& tasks_db matches Some(p) ==> c.tasks_db_path == p
            &&& tasks_db is None ==> c.tasks_db_path == home + "/"@
                + ".zcode/v2/tasks-index.sqlite"@
            &&& tool_db matches Some(p) ==> c.tool_db_path == p
            &&& tool_db is None ==> c.tool_db_path == home + "/"@ + ".zcode/cli/db/db.sqlite"@
            &&& c.slot_count == 8
            &&& c.enable_codex
            &&& c.enable_workbuddy
            &&& c.codex_cli_path is None
            &&& c.workbuddy_projects_dir is None
            &&& c.exclude_workspaces.len() == 0
            &&& c.exclude_task_ids.len() == 0
        }),
{
}

} // verus!
