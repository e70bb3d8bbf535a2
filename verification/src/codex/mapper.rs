//! From a Codex thread to a session snapshot.
use crate::protocol::{BackendId, DeckStatus, SessionSnapshot, SnapshotView};
use crate::text;
use vstd::prelude::*;

verus! {

/// What Codex says of a thread.
#[derive(Debug)]
pub enum ThreadStatus {
    NotLoaded,
    Idle,
    SystemError,
    Active { active_flags: Vec<String> },
}

/// The content of a `ThreadStatus`.
#[verifier::ext_equal]
pub enum StatusView {
    NotLoaded,
    Idle,
    SystemError,
    Active { flags: Seq<Seq<char>> },
}

impl View for ThreadStatus {
    type V = StatusView;

    open spec fn view(&self) -> StatusView {
        match self {
            ThreadStatus::NotLoaded => StatusView::NotLoaded,
            ThreadStatus::Idle => StatusView::Idle,
            ThreadStatus::SystemError => StatusView::SystemError,
            ThreadStatus::Active { active_flags } => StatusView::Active {
                flags: text::texts(active_flags@),
            },
        }
    }
}

impl Default for ThreadStatus {
    fn default() -> (r: ThreadStatus)
        ensures
            r is NotLoaded,
    {
        ThreadStatus::NotLoaded
    }
}

impl Clone for ThreadStatus {
    fn clone(&self) -> (r: ThreadStatus)
        ensures
            r@ == self@,
    {
        match self {
            ThreadStatus::NotLoaded => ThreadStatus::NotLoaded,
            ThreadStatus::Idle => ThreadStatus::Idle,
            ThreadStatus::SystemError => ThreadStatus::SystemError,
            ThreadStatus::Active { active_flags } => {
                let mut flags: Vec<String> = Vec::new();
                let mut i: usize = 0;
                while i < active_flags.len()
                    invariant
                        i <= active_flags@.len(),
                        flags@ == active_flags@.take(i as int),
                    decreases active_flags@.len() - i,
                {
                    flags.push(active_flags[i].clone());
                    i = i + 1;
                    assert(active_flags@.take(i as int) == active_flags@.take(i - 1).push(
                        active_flags@[i - 1],
                    ));
                }
                assert(flags@ == active_flags@);
                ThreadStatus::Active { active_flags: flags }
            },
        }
    }
}

/// One thread of the app server. Times are in seconds.
#[derive(Debug, Clone)]
pub struct CodexThread {
    /// The id under which a thread is opened and resumed.
    pub id: String,
    /// The id of its work tree; not used to address the thread.
    pub session_id: Option<String>,
    pub name: Option<String>,
    pub preview: Option<String>,
    pub cwd: Option<String>,
    pub status: ThreadStatus,
    pub updated_at: Option<u64>,
    pub recency_at: Option<u64>,
}

/// The content of a `CodexThread`.
#[verifier::ext_equal]
pub struct ThreadView {
    pub id: Seq<char>,
    pub session_id: Option<Seq<char>>,
    pub name: Option<Seq<char>>,
    pub preview: Option<Seq<char>>,
    pub cwd: Option<Seq<char>>,
    pub status: StatusView,
    pub updated_at: Option<u64>,
    pub recency_at: Option<u64>,
}

impl View for CodexThread {
    type V = ThreadView;

    open spec fn view(&self) -> ThreadView {
        ThreadView {
            id: self.id@,
            session_id: text::opt(self.session_id),
            name: text::opt(self.name),
            preview: text::opt(self.preview),
            cwd: text::opt(self.cwd),
            status: self.status@,
            updated_at: self.updated_at,
            recency_at: self.recency_at,
        }
    }
}

/// The flags ask for the user: an approval or an input.
pub open spec fn asks_user(flags: Seq<Seq<char>>) -> bool {
    flags.contains("waitingOnApproval"@) || flags.contains("waitingOnUserInput"@)
}

/// The status of a thread. One that is idle or not loaded is idle.
pub open spec fn thread_state(s: StatusView) -> DeckStatus {
    match s {
        StatusView::SystemError => DeckStatus::Error,
        StatusView::Active { flags } => if asks_user(flags) {
            DeckStatus::Waiting
        } else {
            DeckStatus::Working
        },
        StatusView::NotLoaded => DeckStatus::Idle,
        StatusView::Idle => DeckStatus::Idle,
    }
}

/// Whether the flags ask for the user.
pub fn flags_ask_user(flags: &Vec<String>) -> (r: bool)
    ensures
        r == asks_user(text::texts(flags@)),
{
    text::lists_id(flags.as_slice(), "waitingOnApproval") || text::lists_id(
        flags.as_slice(),
        "waitingOnUserInput",
    )
}

/// The status of a thread.
pub fn map_status(status: &ThreadStatus) -> (r: DeckStatus)
    ensures
        r == thread_state(status@),
{
    match status {
        ThreadStatus::SystemError => DeckStatus::Error,
        ThreadStatus::Active { active_flags } => if flags_ask_user(active_flags) {
            DeckStatus::Waiting
        } else {
            DeckStatus::Working
        },
        ThreadStatus::NotLoaded => DeckStatus::Idle,
        ThreadStatus::Idle => DeckStatus::Idle,
    }
}

/// When a thread was last touched, in seconds.
pub open spec fn touched(t: ThreadView) -> u64 {
    match (t.updated_at, t.recency_at) {
        (Some(u), _) => u,
        (None, Some(r)) => r,
        (None, None) => 0,
    }
}

/// When a thread was last touched, in seconds.
pub fn touched_at(t: &CodexThread) -> (r: u64)
    ensures
        r == touched(t@),
{
    match t.updated_at {
        Some(u) => u,
        None => match t.recency_at {
            Some(r) => r,
            None => 0,
        },
    }
}

/// Seconds in milliseconds, as far as they fit.
pub open spec fn millis(secs: u64) -> u64 {
    if secs * 1000 <= u64::MAX {
        (secs * 1000) as u64
    } else {
        u64::MAX
    }
}

/// Seconds in milliseconds, as far as they fit.
fn to_millis(secs: u64) -> (r: u64)
    ensures
        r == millis(secs),
{
    match secs.checked_mul(1000) {
        Some(x) => x,
        None => u64::MAX,
    }
}

/// The snapshot of a thread. It is addressed by its own id.
pub open spec fn snapshot_of(t: ThreadView) -> SnapshotView {
    let status = thread_state(t.status);
    let updated_at = millis(touched(t));
    SnapshotView {
        backend: BackendId::Codex,
        session_id: t.id,
        title: match (text::filled(t.name), text::filled(t.preview)) {
            (Some(n), _) => n,
            (None, Some(p)) => p,
            (None, None) => "(untitled)"@,
        },
        status,
        risk: None,
        detail: None,
        waiting_since: if status is Waiting {
            Some(updated_at)
        } else {
            None
        },
        updated_at,
        workspace_path: t.cwd,
        project_category: None,
        project_label: None,
    }
}

/// The snapshot of a thread.
pub fn map_thread(t: &CodexThread) -> (r: SessionSnapshot)
    ensures
        r@ == snapshot_of(t@),
{
    let status = map_status(&t.status);
    let title = match text::clone_filled(&t.name) {
        Some(n) => n,
        None => match text::clone_filled(&t.preview) {
            Some(p) => p,
            None => "(untitled)".to_string(),
        },
    };
    let updated_at: u64 = to_millis(touched_at(t));
    let waiting_since: Option<u64> = if status == DeckStatus::Waiting {
        Some(updated_at)
    } else {
        None
    };
    SessionSnapshot {
        backend: BackendId::Codex,
        session_id: t.id.clone(),
        title,
        status,
        risk: None,
        detail: None,
        waiting_since,
        updated_at,
        workspace_path: text::clone_opt(&t.cwd),
        project_category: None,
        project_label: None,
    }
}

/// A thread has a start of waiting exactly while it waits: its last update.
pub proof fn lemma_waiting_has_start(t: ThreadView)
    ensures
        snapshot_of(t).waiting_since == (if snapshot_of(t).status is Waiting {
            Some(snapshot_of(t).updated_at)
        } else {
            None
        }),
{
}

/// A thread waits exactly when it is active with a flag that asks for the user,
/// works when it is active otherwise, has failed on a system error, and is idle
/// in all other cases.
pub proof fn lemma_status_of_thread(t: ThreadView)
    ensures
        ({
            let x = snapshot_of(t);
            &&& x.status is Waiting <==> (t.status matches StatusView::Active { flags } && exists|
                i: int,
            |
                0 <= i < flags.len() && (#[trigger] flags[i] == "waitingOnApproval"@ || flags[i]
                    == "waitingOnUserInput"@))
            &&& x.status is Working <==> (t.status matches StatusView::Active { flags } && forall|
                i: int,
            |
                0 <= i < flags.len() ==> #[trigger] flags[i] != "waitingOnApproval"@ && flags[i]
                    != "waitingOnUserInput"@)
            &&& x.status is Error <==> t.status is SystemError
            &&& x.status is Idle <==> t.status is Idle || t.status is NotLoaded
        }),
{
    if t.status is Active {
        let flags = t.status->Active_flags;
        if flags.contains("waitingOnApproval"@) {
            let i = choose|i: int| 0 <= i < flags.len() && flags[i] == "waitingOnApproval"@;
            assert(flags[i] == "waitingOnApproval"@);
        }
        if flags.contains("waitingOnUserInput"@) {
            let i = choose|i: int| 0 <= i < flags.len() && flags[i] == "waitingOnUserInput"@;
            assert(flags[i] == "waitingOnUserInput"@);
        }
    }
}

/// A snapshot is addressed by the id of its thread and bears its folder. Its
/// title is the thread's name, or else its preview, or else a stand-in; nothing
/// of this depends on the status.
pub proof fn lemma_snapshot_names_its_thread(t: ThreadView)
    ensures
        ({
            let x = snapshot_of(t);
            let named = t.name matches Some(n) && n.len() > 0;
            let previewed = t.preview matches Some(p) && p.len() > 0;
            &&& x.backend is Codex
            &&& x.session_id == t.id
            &&& x.workspace_path == t.cwd
            &&& named ==> x.title == t.name->0
            &&& !named && previewed ==> x.title == t.preview->0
            &&& !named && !previewed ==> x.title == "(untitled)"@
            &&& x.risk is None
            &&& x.detail is None
            &&& x.project_category is None
            &&& x.project_label is None
        }),
{
}

/// The time of a snapshot is that of the last update of its thread, or else of
/// its last use, in milliseconds; without either it is zero. A thread that waits
/// does so since then.
pub proof fn lemma_snapshot_time(t: ThreadView, secs: u64)
    requires
        t.updated_at == Some(secs) || t.updated_at is None && t.recency_at == Some(secs)
            || t.updated_at is None && t.recency_at is None && secs == 0,
        secs * 1000 <= u64::MAX,
    ensures
        snapshot_of(t).updated_at == secs * 1000,
        snapshot_of(t).waiting_since is Some <==> snapshot_of(t).status is Waiting,
        snapshot_of(t).waiting_since matches Some(w) ==> w == secs * 1000,
        touched(t) == secs,
{
}

/// A time too great for milliseconds counts as the greatest one.
pub proof fn lemma_far_time_is_the_greatest(t: ThreadView, secs: u64)
    requires
        t.updated_at == Some(secs) || t.updated_at is None && t.recency_at == Some(secs),
        secs * 1000 > u64::MAX,
    ensures
        snapshot_of(t).updated_at == u64::MAX,
{
}

} // verus!
