//! The Codex observer: which threads show on the board, in the bind picker and
//! on pinned keys, and what becomes of a key action.
use crate::codex::ipc;
use crate::codex::ipc::{text_of_field, IpcStates, IpcView};
use crate::codex::mapper;
use crate::codex::mapper::{
    flags_ask_user, map_status, map_thread, touched_at, CodexThread, StatusView, ThreadStatus,
    ThreadView,
};
use crate::json;
use crate::json::{Json, JsonView};
use crate::lists;
use crate::ordering;
use crate::ordering::Rank;
use crate::protocol;
use crate::protocol::{Action, DeckStatus, SessionSnapshot, SnapshotView};
use crate::selection;
use crate::text;
use vstd::prelude::*;

verus! {

/// How much the observer shows.
#[derive(Debug, Clone)]
pub struct CodexObserverOptions {
    /// The program; looked for when not given.
    pub cli_path: Option<String>,
    /// How old a resting thread may be to show on the board, in seconds.
    pub recency_window_secs: u64,
    pub max_threads: usize,
    pub catalog_max_threads: usize,
    /// How old a resting thread may be to show in the bind picker, in seconds.
    pub catalog_recency_window_secs: u64,
    /// Listen to the desktop application for live status.
    pub enable_ipc: bool,
}

impl CodexObserverOptions {
    /// The usual options. Only Unix systems have the channel for live status.
    pub fn usual(unix: bool) -> (r: CodexObserverOptions)
        ensures
            r.cli_path is None,
            r.recency_window_secs == 86_400,
            r.max_threads == 20,
            r.catalog_max_threads == 200,
            r.catalog_recency_window_secs == 7_776_000,
            r.enable_ipc == unix,
    {
        CodexObserverOptions {
            cli_path: None,
            recency_window_secs: 86_400,
            max_threads: 20,
            catalog_max_threads: 200,
            catalog_recency_window_secs: 7_776_000,
            enable_ipc: unix,
        }
    }
}

/// How prominent a status is.
pub open spec fn prominence(s: StatusView) -> u8 {
    match s {
        StatusView::Active { flags } => if mapper::asks_user(flags) {
            5
        } else {
            4
        },
        StatusView::SystemError => 3,
        StatusView::Idle => 2,
        StatusView::NotLoaded => 1,
    }
}

/// How prominent a status is.
fn status_rank(s: &ThreadStatus) -> (r: u8)
    ensures
        r == prominence(s@),
{
    match s {
        ThreadStatus::Active { active_flags } => if flags_ask_user(active_flags) {
            5
        } else {
            4
        },
        ThreadStatus::SystemError => 3,
        ThreadStatus::Idle => 2,
        ThreadStatus::NotLoaded => 1,
    }
}

/// Rank of a thread: prominence of its status, then the last touch.
pub open spec fn thread_rank(t: ThreadView) -> Rank {
    Rank { first: prominence(t.status) as u64, second: mapper::touched(t), third: 0 }
}

/// The thread may show: it is active or failed, or was touched recently.
pub open spec fn eligible(t: ThreadView, now_sec: u64, window: u64) -> bool {
    t.status is Active || t.status is SystemError || now_sec <= mapper::touched(t) + window
}

/// A snapshot with the live status of its thread. A thread that is live but
/// idle keeps what the list says of it.
pub open spec fn with_live(s: SnapshotView, live: Option<Map<Seq<char>, IpcView>>) -> SnapshotView {
    if live matches Some(m) && m.contains_key(s.session_id) && !(mapper::thread_state(
        m[s.session_id].status,
    ) is Idle) {
        let status = mapper::thread_state(live->0[s.session_id].status);
        SnapshotView {
            status,
            waiting_since: if status is Waiting {
                Some(s.updated_at)
            } else {
                None
            },
            ..s
        }
    } else {
        s
    }
}

/// The threads that show, most prominent first, at most `max` of them; on the
/// board only those that do something.
pub open spec fn shown(
    threads: Seq<ThreadView>,
    live: Option<Map<Seq<char>, IpcView>>,
    now_sec: u64,
    window: u64,
    max: int,
    keep_idle: bool,
) -> Seq<SnapshotView> {
    let fit = ordering::ranked(threads, |t: ThreadView| thread_rank(t)).filter(
        |t: ThreadView| eligible(t, now_sec, window),
    );
    fit.take(
        if max < fit.len() {
            max
        } else {
            fit.len() as int
        },
    ).map_values(|t: ThreadView| with_live(mapper::snapshot_of(t), live)).filter(
        |s: SnapshotView| keep_idle || !(s.status is Idle || s.status is Off),
    )
}

/// The content of an optional table of live status.
pub open spec fn live_view(live: Option<&IpcStates>) -> Option<Map<Seq<char>, IpcView>> {
    match live {
        Some(m) => Some(m@),
        None => None,
    }
}

/// The contents of a list of threads.
pub open spec fn thread_views(s: Seq<CodexThread>) -> Seq<ThreadView> {
    s.map_values(|t: CodexThread| t@)
}

/// The snapshot of a thread with its live status.
fn live_snapshot(t: &CodexThread, live: Option<&IpcStates>) -> (r: SessionSnapshot)
    ensures
        r@ == with_live(mapper::snapshot_of(t@), live_view(live)),
{
    let mut s = map_thread(t);
    if let Some(states) = live {
        if let Some(status) = states.status_of(s.session_id.as_str()) {
            let mapped = map_status(&status);
            if mapped != DeckStatus::Idle {
                s.status = mapped;
                s.waiting_since = if mapped == DeckStatus::Waiting {
                    Some(s.updated_at)
                } else {
                    None
                };
            }
        }
    }
    s
}

/// The threads that may show, most prominent first, as positions in `threads`.
fn eligible_order(threads: &Vec<CodexThread>, now_sec: u64, window: u64) -> (r: Vec<usize>)
    ensures
        forall|a: int| 0 <= a < r@.len() ==> (#[trigger] r@[a]) < threads@.len(),
        r@.map_values(|k: usize| thread_views(threads@)[k as int]) == ordering::ranked(
            thread_views(threads@),
            |t: ThreadView| thread_rank(t),
        ).filter(|t: ThreadView| eligible(t, now_sec, window)),
{
    let ghost views = thread_views(threads@);
    let ghost key = |t: ThreadView| thread_rank(t);
    let ghost keep = |t: ThreadView| eligible(t, now_sec, window);
    let ghost at = |k: usize| views[k as int];
    let mut ranks: Vec<Rank> = Vec::new();
    let mut i: usize = 0;
    while i < threads.len()
        invariant
            i <= threads@.len(),
            ranks@.len() == i,
            forall|j: int| 0 <= j < i ==> #[trigger] ranks@[j] == thread_rank(threads@[j]@),
        decreases threads@.len() - i,
    {
        let first: u64 = status_rank(&threads[i].status) as u64;
        ranks.push(Rank { first, second: touched_at(&threads[i]), third: 0 });
        i = i + 1;
    }
    assert(ranks@ =~= views.map_values(key));
    let p = ordering::order(&ranks);
    let ghost order = ordering::as_ints(p@);
    let ghost sorted = ordering::ranked(views, key);
    assert forall|b: int| 0 <= b < p@.len() implies 0 <= #[trigger] p@[b] < threads@.len() && at(
        p@[b],
    ) == sorted[b] by {
        assert(0 <= order[b] < ranks@.len());
        assert(order[b] == p@[b]);
    }
    let mut out: Vec<usize> = Vec::new();
    let mut a: usize = 0;
    proof {
        lists::lemma_filter_none(sorted, keep);
        assert(out@.map_values(at) =~= Seq::<ThreadView>::empty());
    }
    while a < p.len()
        invariant
            a <= p@.len(),
            p@.len() == sorted.len(),
            views == thread_views(threads@),
            at == (|k: usize| views[k as int]),
            keep == (|t: ThreadView| eligible(t, now_sec, window)),
            forall|b: int|
                0 <= b < p@.len() ==> 0 <= #[trigger] p@[b] < threads@.len() && at(p@[b])
                    == sorted[b],
            forall|b: int| 0 <= b < out@.len() ==> (#[trigger] out@[b]) < threads@.len(),
            out@.map_values(at) == sorted.take(a as int).filter(keep),
        decreases p@.len() - a,
    {
        proof {
            lists::lemma_filter_next(sorted, keep, a as int);
        }
        let k: usize = p[a];
        let t = &threads[k];
        assert(sorted[a as int] == t@);
        let busy: bool = match &t.status {
            ThreadStatus::Active { .. } => true,
            ThreadStatus::SystemError => true,
            _ => false,
        };
        if busy || now_sec.saturating_sub(touched_at(t)) <= window {
            let ghost had = out@;
            out.push(k);
            assert(out@.map_values(at) =~= had.map_values(at).push(at(k)));
        }
        a = a + 1;
    }
    assert(sorted.take(a as int) == sorted);
    assert(out@.map_values(|k: usize| thread_views(threads@)[k as int]) =~= out@.map_values(at));
    out
}

/// The threads that show.
pub fn select_threads(
    threads: &Vec<CodexThread>,
    live: Option<&IpcStates>,
    now_sec: u64,
    window: u64,
    max: usize,
    keep_idle: bool,
) -> (r: Vec<SessionSnapshot>)
    ensures
        protocol::snapshots(r@) == shown(
            thread_views(threads@),
            live_view(live),
            now_sec,
            window,
            max as int,
            keep_idle,
        ),
{
    let ghost views = thread_views(threads@);
    let mut fit = eligible_order(threads, now_sec, window);
    let ghost all = fit@.map_values(|k: usize| views[k as int]);
    fit.truncate(max);
    let ghost n = if max < all.len() {
        max as int
    } else {
        all.len() as int
    };
    let ghost chosen = all.take(n);
    assert(fit@.map_values(|k: usize| views[k as int]) =~= chosen);
    let ghost f = |t: ThreadView| with_live(mapper::snapshot_of(t), live_view(live));
    let ghost keep = |s: SnapshotView| keep_idle || !(s.status is Idle || s.status is Off);
    let ghost mapped = chosen.map_values(f);
    let mut out: Vec<SessionSnapshot> = Vec::new();
    let mut i: usize = 0;
    assert forall|b: int| 0 <= b < fit@.len() implies views[#[trigger] fit@[b] as int]
        == chosen[b] by {
        assert(fit@.map_values(|k: usize| views[k as int])[b] == chosen[b]);
    }
    proof {
        lists::lemma_filter_none(mapped, keep);
        assert(protocol::snapshots(out@) =~= Seq::<SnapshotView>::empty());
    }
    while i < fit.len()
        invariant
            i <= fit@.len(),
            fit@.len() == chosen.len(),
            views == thread_views(threads@),
            f == (|t: ThreadView| with_live(mapper::snapshot_of(t), live_view(live))),
            keep == (|s: SnapshotView| keep_idle || !(s.status is Idle || s.status is Off)),
            mapped == chosen.map_values(f),
            forall|b: int| 0 <= b < fit@.len() ==> (#[trigger] fit@[b]) < threads@.len(),
            forall|b: int|
                0 <= b < fit@.len() ==> views[#[trigger] fit@[b] as int] == chosen[b],
            protocol::snapshots(out@) == mapped.take(i as int).filter(keep),
        decreases fit@.len() - i,
    {
        proof {
            lists::lemma_filter_next(mapped, keep, i as int);
        }
        let k: usize = fit[i];
        assert(views[k as int] == chosen[i as int]);
        let s = live_snapshot(&threads[k], live);
        assert(mapped[i as int] == s@);
        if keep_idle || !(s.status == DeckStatus::Idle || s.status == DeckStatus::Off) {
            let ghost had = out@;
            out.push(s);
            assert(protocol::snapshots(out@) =~= protocol::snapshots(had).push(s@));
        }
        i = i + 1;
    }
    assert(mapped.take(i as int) == mapped);
    out
}

/// What came of asking the app server for its threads.
#[derive(Debug)]
pub enum FetchReply {
    /// It could not be started.
    OpenFailed,
    /// It is not running, and starting it failed before.
    NotConnected,
    /// It did not answer.
    RequestFailed,
    Threads(Vec<CodexThread>),
}

/// The content of a `FetchReply`.
#[verifier::ext_equal]
pub enum ReplyView {
    OpenFailed,
    NotConnected,
    RequestFailed,
    Threads(Seq<ThreadView>),
}

impl View for FetchReply {
    type V = ReplyView;

    open spec fn view(&self) -> ReplyView {
        match self {
            FetchReply::OpenFailed => ReplyView::OpenFailed,
            FetchReply::NotConnected => ReplyView::NotConnected,
            FetchReply::RequestFailed => ReplyView::RequestFailed,
            FetchReply::Threads(t) => ReplyView::Threads(thread_views(t@)),
        }
    }
}

/// What to do before a request.
#[derive(Debug, PartialEq, Eq, Clone, Copy, Structural)]
pub enum EnsureStep {
    /// The app server is running.
    Ready,
    /// Start it.
    Open,
    /// Starting it failed before: refuse.
    Refuse,
}

/// What to do about a key action.
#[derive(Debug)]
pub enum DispatchPlan {
    /// Nothing: this is the answer.
    Status(String),
    /// Interrupt what each of these threads is doing.
    Stop { thread_ids: Vec<String> },
}

/// The content of a `DispatchPlan`.
#[verifier::ext_equal]
pub enum PlanView {
    Status(Seq<char>),
    Stop(Seq<Seq<char>>),
}

impl View for DispatchPlan {
    type V = PlanView;

    open spec fn view(&self) -> PlanView {
        match self {
            DispatchPlan::Status(s) => PlanView::Status(s@),
            DispatchPlan::Stop { thread_ids } => PlanView::Stop(text::texts(thread_ids@)),
        }
    }
}

/// The observer's own state. The app server itself is held by whoever talks to it.
pub struct CodexObserver {
    opts: CodexObserverOptions,
    connected: bool,
    last_snapshots: Vec<SessionSnapshot>,
    open_failed: bool,
}

/// The content of a `CodexObserver`.
#[verifier::ext_equal]
pub struct ObserverView {
    pub cli_path: Option<Seq<char>>,
    pub enable_ipc: bool,
    pub recency_window_secs: u64,
    pub max_threads: int,
    pub catalog_max_threads: int,
    pub catalog_recency_window_secs: u64,
    pub connected: bool,
    pub open_failed: bool,
    pub last: Seq<SnapshotView>,
}

impl View for CodexObserver {
    type V = ObserverView;

    closed spec fn view(&self) -> ObserverView {
        ObserverView {
            cli_path: text::opt(self.opts.cli_path),
            enable_ipc: self.opts.enable_ipc,
            recency_window_secs: self.opts.recency_window_secs,
            max_threads: self.opts.max_threads as int,
            catalog_max_threads: self.opts.catalog_max_threads as int,
            catalog_recency_window_secs: self.opts.catalog_recency_window_secs,
            connected: self.connected,
            open_failed: self.open_failed,
            last: protocol::snapshots(self.last_snapshots@),
        }
    }
}

/// The sessions of `s` that work or wait, in their order.
pub open spec fn busy(s: Seq<SnapshotView>) -> Seq<Seq<char>>
    decreases s.len(),
{
    if s.len() == 0 {
        Seq::empty()
    } else if s.last().status is Working || s.last().status is Waiting {
        busy(s.drop_last()).push(s.last().session_id)
    } else {
        busy(s.drop_last())
    }
}

impl ObserverView {
    /// The observer after a reply: a failed start is remembered, and an app
    /// server that does not answer is given up.
    pub open spec fn after_reply(self, reply: ReplyView) -> ObserverView {
        match reply {
            ReplyView::OpenFailed => ObserverView { open_failed: true, ..self },
            ReplyView::RequestFailed => ObserverView { connected: false, ..self },
            _ => self,
        }
    }

    /// What shows after a reply. Without an answer the board keeps what it
    /// showed last, and the bind picker shows nothing; after a failed start
    /// neither shows anything.
    pub open spec fn fetched(
        self,
        reply: ReplyView,
        live: Option<Map<Seq<char>, IpcView>>,
        now_sec: u64,
        catalog: bool,
    ) -> Seq<SnapshotView> {
        match reply {
            ReplyView::OpenFailed => Seq::empty(),
            ReplyView::Threads(t) => if catalog {
                shown(
                    t,
                    live,
                    now_sec,
                    self.catalog_recency_window_secs,
                    self.catalog_max_threads,
                    true,
                )
            } else {
                shown(t, live, now_sec, self.recency_window_secs, self.max_threads, false)
            },
            _ => if catalog {
                Seq::empty()
            } else {
                self.last
            },
        }
    }

    /// The threads that an action without a session targets, among those that
    /// showed last: for stop-all all that work or wait, else the one at the index
    /// that the action names, or the first.
    pub open spec fn targets(self, action: Action) -> Seq<Seq<char>> {
        match action {
            Action::StopAll => busy(self.last),
            Action::Stop { i } => self.nth(i),
            Action::Accept { i } => self.nth(i),
            Action::Reject { i } => self.nth(i),
            _ => Seq::empty(),
        }
    }

    /// The session at an index, or the first one, if there is one.
    pub open spec fn nth(self, i: Option<usize>) -> Seq<Seq<char>> {
        let k = match i {
            Some(x) => x as int,
            None => 0,
        };
        if k < self.last.len() {
            seq![self.last[k].session_id]
        } else {
            Seq::empty()
        }
    }

    /// What to do about a key action on the session of its key: stopping stops
    /// that session, whatever showed last.
    pub open spec fn plan_for(self, action: Action, session: Seq<char>) -> PlanView {
        if action is Stop {
            PlanView::Stop(seq![session])
        } else {
            self.plan(action)
        }
    }

    /// What to do about a key action. Threads can be stopped; approvals cannot
    /// be given, since the id of the request is not known here.
    pub open spec fn plan(self, action: Action) -> PlanView {
        if action is Stop || action is StopAll {
            if self.targets(action).len() > 0 {
                PlanView::Stop(self.targets(action))
            } else {
                PlanView::Status("unsupported:"@ + action.tag() + ":no_target"@)
            }
        } else if action is Accept || action is Reject {
            PlanView::Status("unsupported:"@ + action.tag() + ":no_request_id"@)
        } else {
            PlanView::Status("unsupported:"@ + action.tag())
        }
    }
}

/// The parameters of the request for all threads: archived ones are left out.
pub fn list_params() -> (r: Json)
    ensures
        r@ == JsonView::Object(json::empty_object().insert("archived"@, JsonView::Bool(false))),
{
    json::object1(("archived", Json::Bool(false)))
}

/// The parameters of the request to resume a thread.
pub fn resume_params(thread_id: &str) -> (r: Json)
    ensures
        r@ == JsonView::Object(
            json::empty_object().insert("threadId"@, JsonView::Text(thread_id@)),
        ),
{
    json::object1(("threadId", Json::Text(thread_id.to_string())))
}

/// The parameters of the request to interrupt a turn.
pub fn interrupt_params(thread_id: &str, turn_id: &str) -> (r: Json)
    ensures
        r@ == JsonView::Object(
            json::empty_object().insert("threadId"@, JsonView::Text(thread_id@)).insert(
                "turnId"@,
                JsonView::Text(turn_id@),
            ),
        ),
{
    json::object2(
        ("threadId", Json::Text(thread_id.to_string())),
        ("turnId", Json::Text(turn_id.to_string())),
    )
}

/// The last turn of a resumed thread.
pub open spec fn turn_in(result: JsonView) -> Option<Seq<char>> {
    match result.field("thread"@) {
        Some(t) => match t.field("lastTurn"@) {
            Some(turn) => ipc::text_field(turn, "id"@),
            None => None,
        },
        None => None,
    }
}

/// The last turn of a resumed thread; None when there is nothing to interrupt.
pub fn last_turn_id(result: &Json) -> (r: Option<String>)
    ensures
        text::opt(r) == turn_in(result@),
{
    match result.get("thread") {
        Some(t) => match t.get("lastTurn") {
            Some(turn) => match text_of_field(turn, "id") {
                Some(id) => Some(id.clone()),
                None => None,
            },
            None => None,
        },
        None => None,
    }
}

/// What came of the last step of stopping a thread.
#[derive(Debug)]
pub enum StopEvent {
    /// The thread was resumed; this is the reply.
    Resumed(Json),
    /// The thread could not be resumed.
    ResumeFailed,
    /// The turn was interrupted.
    Interrupted,
    /// The turn could not be interrupted.
    InterruptFailed,
}

/// The next step of stopping a thread.
#[derive(Debug)]
pub enum StopStep {
    /// Interrupt this turn.
    Interrupt { turn_id: String },
    /// The thread is stopped.
    Done,
    /// The thread cannot be stopped.
    Fail,
}

/// The content of a `StopStep`.
#[verifier::ext_equal]
pub enum StopStepView {
    Interrupt(Seq<char>),
    Done,
    Fail,
}

impl View for StopStep {
    type V = StopStepView;

    open spec fn view(&self) -> StopStepView {
        match self {
            StopStep::Interrupt { turn_id } => StopStepView::Interrupt(turn_id@),
            StopStep::Done => StopStepView::Done,
            StopStep::Fail => StopStepView::Fail,
        }
    }
}

/// The next step of stopping a thread. A thread without a turn has nothing to
/// interrupt. A turn that cannot be interrupted has ended, so the thread is
/// stopped either way.
pub fn stop_step(reply: &StopEvent) -> (r: StopStep)
    ensures
        r@ == (match *reply {
            StopEvent::Resumed(result) => match turn_in(result@) {
                Some(id) => StopStepView::Interrupt(id),
                None => StopStepView::Done,
            },
            StopEvent::ResumeFailed => StopStepView::Fail,
            StopEvent::Interrupted => StopStepView::Done,
            StopEvent::InterruptFailed => StopStepView::Done,
        }),
{
    match reply {
        StopEvent::Resumed(result) => match last_turn_id(result) {
            Some(turn_id) => StopStep::Interrupt { turn_id },
            None => StopStep::Done,
        },
        StopEvent::ResumeFailed => StopStep::Fail,
        StopEvent::Interrupted => StopStep::Done,
        StopEvent::InterruptFailed => StopStep::Done,
    }
}

/// These ids in a row, with commas between them.
pub open spec fn listed(ids: Seq<Seq<char>>) -> Seq<char>
    decreases ids.len(),
{
    if ids.len() == 0 {
        Seq::empty()
    } else if ids.len() == 1 {
        ids[0]
    } else {
        listed(ids.drop_last()) + ","@ + ids.last()
    }
}

/// The first failure among these.
pub open spec fn first_failure(failures: Seq<Option<String>>) -> Option<Seq<char>>
    decreases failures.len(),
{
    if failures.len() == 0 {
        None
    } else if first_failure(failures.drop_last()) is Some {
        first_failure(failures.drop_last())
    } else {
        text::opt(failures.last())
    }
}

/// What comes of stopping threads: the first failure, if there was one, or else
/// a status that names them.
pub fn stop_outcome(
    action: &Action,
    thread_ids: &Vec<String>,
    failures: &Vec<Option<String>>,
) -> (r: Result<String, String>)
    ensures
        match r {
            Ok(s) => first_failure(failures@) is None && s@ == "ok:"@ + action.tag() + ":"@
                + listed(text::texts(thread_ids@)),
            Err(e) => first_failure(failures@) == Some(e@),
        },
{
    let mut k: usize = 0;
    assert(failures@.take(0) == Seq::<Option<String>>::empty());
    while k < failures.len()
        invariant
            k <= failures@.len(),
            first_failure(failures@.take(k as int)) is None,
        decreases failures@.len() - k,
    {
        assert(failures@.take(k + 1).drop_last() == failures@.take(k as int));
        if let Some(e) = &failures[k] {
            assert(first_failure(failures@.take(k + 1)) == Some(e@));
            proof {
                lemma_first_failure(failures@, k + 1);
            }
            return Err(e.clone());
        }
        k = k + 1;
    }
    assert(failures@.take(k as int) == failures@);
    let ghost ids = text::texts(thread_ids@);
    let mut s = String::new();
    let mut i: usize = 0;
    assert(ids.take(0) == Seq::<Seq<char>>::empty());
    while i < thread_ids.len()
        invariant
            i <= thread_ids@.len(),
            ids == text::texts(thread_ids@),
            s@ == listed(ids.take(i as int)),
        decreases thread_ids@.len() - i,
    {
        assert(ids.take(i + 1).drop_last() == ids.take(i as int));
        assert(ids.take(i + 1).last() == thread_ids@[i as int]@);
        if i > 0 {
            s.append(",");
        } else {
            assert(s@ + thread_ids@[0]@ =~= thread_ids@[0]@);
        }
        s.append(thread_ids[i].as_str());
        i = i + 1;
    }
    assert(ids.take(i as int) == ids);
    let mut r = "ok:".to_string();
    r.append(action.op_tag());
    r.append(":");
    r.append(s.as_str());
    Ok(r)
}

proof fn lemma_first_failure(failures: Seq<Option<String>>, n: int)
    requires
        0 <= n <= failures.len(),
        first_failure(failures.take(n)) is Some,
    ensures
        first_failure(failures) == first_failure(failures.take(n)),
    decreases failures.len() - n,
{
    if n < failures.len() {
        assert(failures.take(n + 1).drop_last() == failures.take(n));
        lemma_first_failure(failures, n + 1);
    } else {
        assert(failures.take(n) == failures);
    }
}

/// What is answered for an action that is not supported.
fn unsupported(action: &Action, why: &str) -> (r: String)
    ensures
        r@ == "unsupported:"@ + action.tag() + why@,
{
    let mut s = "unsupported:".to_string();
    s.append(action.op_tag());
    s.append(why);
    s
}

impl CodexObserver {
    /// An observer whose app server is not running.
    pub fn new(opts: CodexObserverOptions) -> (r: CodexObserver)
        ensures
            r@ == (ObserverView {
                cli_path: text::opt(opts.cli_path),
                enable_ipc: opts.enable_ipc,
                recency_window_secs: opts.recency_window_secs,
                max_threads: opts.max_threads as int,
                catalog_max_threads: opts.catalog_max_threads as int,
                catalog_recency_window_secs: opts.catalog_recency_window_secs,
                connected: false,
                open_failed: false,
                last: Seq::empty(),
            }),
    {
        let r = CodexObserver {
            opts,
            connected: false,
            last_snapshots: Vec::new(),
            open_failed: false,
        };
        assert(r@.last =~= Seq::empty());
        r
    }

    /// The options.
    pub fn options(&self) -> (r: &CodexObserverOptions)
        ensures
            text::opt(r.cli_path) == self@.cli_path,
            r.enable_ipc == self@.enable_ipc,
            r.recency_window_secs == self@.recency_window_secs,
            r.max_threads == self@.max_threads,
            r.catalog_max_threads == self@.catalog_max_threads,
            r.catalog_recency_window_secs == self@.catalog_recency_window_secs,
    {
        &self.opts
    }

    /// Takes note that the app server is running.
    pub fn set_opened(&mut self)
        ensures
            final(self)@ == (ObserverView {
                connected: true,
                open_failed: false,
                ..old(self)@
            }),
    {
        self.connected = true;
        self.open_failed = false;
    }

    /// What to do before a request.
    pub fn ensure_client(&self) -> (r: EnsureStep)
        ensures
            r == (if self@.connected {
                EnsureStep::Ready
            } else if self@.open_failed {
                EnsureStep::Refuse
            } else {
                EnsureStep::Open
            }),
    {
        if self.connected {
            EnsureStep::Ready
        } else if self.open_failed {
            EnsureStep::Refuse
        } else {
            EnsureStep::Open
        }
    }

    /// What shows after a reply of the app server.
    fn fetch_threads(
        &mut self,
        reply: &FetchReply,
        live: Option<&IpcStates>,
        now_sec: u64,
        catalog: bool,
    ) -> (r: Vec<SessionSnapshot>)
        ensures
            final(self)@ == old(self)@.after_reply(reply@),
            protocol::snapshots(r@) == old(self)@.fetched(
                reply@,
                live_view(live),
                now_sec,
                catalog,
            ),
    {
        let none: Vec<SessionSnapshot> = Vec::new();
        assert(protocol::snapshots(none@) =~= Seq::<SnapshotView>::empty());
        match reply {
            FetchReply::OpenFailed => {
                self.open_failed = true;
                return none;
            },
            FetchReply::NotConnected => {},
            FetchReply::RequestFailed => {
                self.connected = false;
            },
            FetchReply::Threads(threads) => {
                return if catalog {
                    select_threads(
                        threads,
                        live,
                        now_sec,
                        self.opts.catalog_recency_window_secs,
                        self.opts.catalog_max_threads,
                        true,
                    )
                } else {
                    select_threads(
                        threads,
                        live,
                        now_sec,
                        self.opts.recency_window_secs,
                        self.opts.max_threads,
                        false,
                    )
                };
            },
        }
        if catalog {
            none
        } else {
            protocol::clone_snapshots(&self.last_snapshots)
        }
    }

    /// What shows on the board after a reply of the app server.
    pub fn poll_once(
        &mut self,
        reply: &FetchReply,
        live: Option<&IpcStates>,
        now_sec: u64,
    ) -> (r: Vec<SessionSnapshot>)
        ensures
            protocol::snapshots(r@) == old(self)@.fetched(
                reply@,
                live_view(live),
                now_sec,
                false,
            ),
            final(self)@ == (ObserverView {
                last: protocol::snapshots(r@),
                ..old(self)@.after_reply(reply@)
            }),
    {
        let snaps = self.fetch_threads(reply, live, now_sec, false);
        self.last_snapshots = protocol::clone_snapshots(&snaps);
        snaps
    }

    /// What shows in the bind picker after a reply of the app server.
    pub fn catalog_once(
        &mut self,
        reply: &FetchReply,
        live: Option<&IpcStates>,
        now_sec: u64,
    ) -> (r: Vec<SessionSnapshot>)
        ensures
            protocol::snapshots(r@) == old(self)@.fetched(reply@, live_view(live), now_sec, true),
            final(self)@ == old(self)@.after_reply(reply@),
    {
        self.fetch_threads(reply, live, now_sec, true)
    }

    /// The latest state of these threads after a reply of the app server; those
    /// of the bind picker, since threads cannot be asked for one by one.
    pub fn poll_pinned_once(
        &mut self,
        ids: &[String],
        reply: &FetchReply,
        live: Option<&IpcStates>,
        now_sec: u64,
    ) -> (r: Vec<SessionSnapshot>)
        ensures
            ids@.len() == 0 ==> protocol::snapshots(r@) == Seq::<SnapshotView>::empty()
                && final(self)@ == old(self)@,
            ids@.len() > 0 ==> protocol::snapshots(r@) == selection::with_ids(
                old(self)@.fetched(reply@, live_view(live), now_sec, true),
                text::texts(ids@),
            ) && final(self)@ == old(self)@.after_reply(reply@),
    {
        if ids.len() == 0 {
            let r: Vec<SessionSnapshot> = Vec::new();
            assert(protocol::snapshots(r@) =~= Seq::<SnapshotView>::empty());
            return r;
        }
        let snaps = self.fetch_threads(reply, live, now_sec, true);
        selection::keep_ids(&snaps, ids)
    }

    /// What the last poll showed.
    pub fn last_snapshots(&self) -> (r: &Vec<SessionSnapshot>)
        ensures
            protocol::snapshots(r@) == self@.last,
    {
        &self.last_snapshots
    }

    /// The session at an index, or the first one, if there is one.
    fn session_at(&self, i: Option<usize>) -> (r: Vec<String>)
        ensures
            text::texts(r@) == self@.nth(i),
    {
        let k: usize = match i {
            Some(x) => x,
            None => 0,
        };
        let mut r: Vec<String> = Vec::new();
        if k < self.last_snapshots.len() {
            r.push(self.last_snapshots[k].session_id.clone());
        }
        assert(text::texts(r@) =~= self@.nth(i));
        r
    }

    /// The threads that an action targets.
    fn target_thread_ids(&self, action: &Action) -> (r: Vec<String>)
        ensures
            text::texts(r@) == self@.targets(*action),
    {
        match action {
            Action::StopAll => {
                let ghost all = self@.last;
                let mut r: Vec<String> = Vec::new();
                let mut k: usize = 0;
                assert(all.take(0) == Seq::<SnapshotView>::empty());
                assert(text::texts(r@) =~= busy(all.take(0)));
                while k < self.last_snapshots.len()
                    invariant
                        k <= self.last_snapshots@.len(),
                        all == protocol::snapshots(self.last_snapshots@),
                        text::texts(r@) == busy(all.take(k as int)),
                    decreases self.last_snapshots@.len() - k,
                {
                    let ghost had = r@;
                    assert(all.take(k + 1).drop_last() == all.take(k as int));
                    assert(all.take(k + 1).last() == self.last_snapshots@[k as int]@);
                    let status = self.last_snapshots[k].status;
                    if status == DeckStatus::Working || status == DeckStatus::Waiting {
                        r.push(self.last_snapshots[k].session_id.clone());
                        assert(text::texts(r@) =~= text::texts(had).push(
                            self.last_snapshots@[k as int].session_id@,
                        ));
                    }
                    k = k + 1;
                }
                assert(all.take(k as int) == all);
                r
            },
            Action::Stop { i } => self.session_at(*i),
            Action::Accept { i } => self.session_at(*i),
            Action::Reject { i } => self.session_at(*i),
            _ => {
                let r: Vec<String> = Vec::new();
                assert(text::texts(r@) =~= Seq::<Seq<char>>::empty());
                r
            },
        }
    }

    /// What to do about a key action on the session of its key.
    pub fn dispatch_for(&self, action: &Action, session_id: &str) -> (r: DispatchPlan)
        ensures
            r@ == self@.plan_for(*action, session_id@),
    {
        match action {
            Action::Stop { .. } => {
                let thread_ids: Vec<String> = vec![session_id.to_string()];
                assert(text::texts(thread_ids@) =~= seq![session_id@]);
                DispatchPlan::Stop { thread_ids }
            },
            _ => self.dispatch_once(action),
        }
    }

    /// What to do about a key action whose session is not told.
    pub fn dispatch_once(&self, action: &Action) -> (r: DispatchPlan)
        ensures
            r@ == self@.plan(*action),
    {
        match action {
            Action::Stop { .. } | Action::StopAll => {
                let thread_ids = self.target_thread_ids(action);
                if thread_ids.len() > 0 {
                    DispatchPlan::Stop { thread_ids }
                } else {
                    DispatchPlan::Status(unsupported(action, ":no_target"))
                }
            },
            Action::Accept { .. } | Action::Reject { .. } => {
                DispatchPlan::Status(unsupported(action, ":no_request_id"))
            },
            _ => {
                let s = unsupported(action, "");
                proof {
                    reveal_strlit("");
                    assert("unsupported:"@ + action.tag() + ""@ =~= "unsupported:"@ + action.tag());
                }
                DispatchPlan::Status(s)
            },
        }
    }
}

/// On the board no thread is idle or off.
pub proof fn lemma_board_shows_no_idle_thread(
    threads: Seq<ThreadView>,
    live: Option<Map<Seq<char>, IpcView>>,
    now_sec: u64,
    window: u64,
    max: int,
    x: SnapshotView,
)
    requires
        shown(threads, live, now_sec, window, max, false).contains(x),
    ensures
        !(x.status is Idle),
        !(x.status is Off),
{
    let fit = ordering::ranked(threads, |t: ThreadView| thread_rank(t)).filter(
        |t: ThreadView| eligible(t, now_sec, window),
    );
    let mapped = fit.take(
        if max < fit.len() {
            max
        } else {
            fit.len() as int
        },
    ).map_values(|t: ThreadView| with_live(mapper::snapshot_of(t), live));
    let keep_idle = false;
    let keep = |s: SnapshotView| keep_idle || !(s.status is Idle || s.status is Off);
    lists::lemma_filter_contains(mapped, keep);
    assert(shown(threads, live, now_sec, window, max, false) == mapped.filter(keep));
}

/// A thread has a start of waiting exactly while it waits, with or without live
/// status.
pub proof fn lemma_live_waiting_has_start(
    t: ThreadView,
    live: Option<Map<Seq<char>, IpcView>>,
)
    ensures
        with_live(mapper::snapshot_of(t), live).waiting_since is Some <==> with_live(
            mapper::snapshot_of(t),
            live,
        ).status is Waiting,
{
}

/// A thread that the desktop application says is at work shows so, whatever the
/// list says of it.
pub proof fn lemma_live_work_shows(t: ThreadView, live: Map<Seq<char>, IpcView>)
    requires
        live.contains_key(t.id),
        live[t.id].status is Active,
    ensures
        with_live(mapper::snapshot_of(t), Some(live)).status == mapper::thread_state(
            live[t.id].status,
        ),
{
}

/// Stop-all stops every thread that showed as working or waiting, and no other.
pub proof fn lemma_stop_all_stops_the_busy(o: ObserverView, id: Seq<char>)
    ensures
        o.targets(Action::StopAll).contains(id) <==> exists|k: int|
            0 <= k < o.last.len() && (#[trigger] o.last[k]).session_id == id && (
            o.last[k].status is Working || o.last[k].status is Waiting),
{
    lemma_busy(o.last, id);
}

proof fn lemma_busy(s: Seq<SnapshotView>, id: Seq<char>)
    ensures
        busy(s).contains(id) <==> exists|k: int|
            0 <= k < s.len() && (#[trigger] s[k]).session_id == id && (s[k].status is Working
                || s[k].status is Waiting),
    decreases s.len(),
{
    if s.len() > 0 {
        let t = s.drop_last();
        let n = s.len() - 1;
        lemma_busy(t, id);
        if busy(t).contains(id) {
            let k = choose|k: int|
                0 <= k < t.len() && (#[trigger] t[k]).session_id == id && (t[k].status is Working
                    || t[k].status is Waiting);
            assert(s[k] == t[k]);
            let a = choose|a: int| 0 <= a < busy(t).len() && busy(t)[a] == id;
            assert(busy(s)[a] == id);
        } else if s[n].session_id == id && (s[n].status is Working || s[n].status is Waiting) {
            assert(busy(s)[busy(s).len() - 1] == id);
        } else if busy(s).contains(id) {
            let a = choose|a: int| 0 <= a < busy(s).len() && busy(s)[a] == id;
            assert(a < busy(t).len() ==> busy(t)[a] == id);
        } else if exists|k: int|
            0 <= k < s.len() && (#[trigger] s[k]).session_id == id && (s[k].status is Working
                || s[k].status is Waiting) {
            let k = choose|k: int|
                0 <= k < s.len() && (#[trigger] s[k]).session_id == id && (s[k].status is Working
                    || s[k].status is Waiting);
            assert(t[k] == s[k]);
        }
    }
}

/// When a thread was last touched: its last update, or else its last use.
pub open spec fn last_touch(t: ThreadView) -> int {
    match t.updated_at {
        Some(u) => u as int,
        None => match t.recency_at {
            Some(r) => r as int,
            None => 0,
        },
    }
}

/// The thread is worth showing: it does something or has failed, or it was
/// touched within the window.
pub open spec fn fresh(t: ThreadView, now_sec: u64, window: u64) -> bool {
    t.status is Active || t.status is SystemError || now_sec - last_touch(t) <= window
}

/// Some flag asks for the user.
pub open spec fn wants_user(s: StatusView) -> bool {
    s matches StatusView::Active { flags } && exists|i: int|
        0 <= i < flags.len() && (#[trigger] flags[i] == "waitingOnApproval"@ || flags[i]
            == "waitingOnUserInput"@)
}

/// Thread `i` comes before thread `j`: those that ask for the user before those
/// that are otherwise active, then failed ones, idle ones, and those not loaded;
/// of alike ones the one touched last, then the one listed first.
pub open spec fn comes_first(threads: Seq<ThreadView>, i: int, j: int) -> bool {
    let (a, b) = (threads[i].status, threads[j].status);
    let alike = wants_user(a) == wants_user(b) && a is Active == b is Active && a is SystemError
        == b is SystemError && a is Idle == b is Idle;
    if alike {
        last_touch(threads[i]) > last_touch(threads[j]) || last_touch(threads[i]) == last_touch(
            threads[j],
        ) && i < j
    } else {
        ||| wants_user(a)
        ||| a is Active && !wants_user(b)
        ||| a is SystemError && !(b is Active)
        ||| a is Idle && b is NotLoaded
    }
}

/// What tells of a thread: its live status if that is active or a failure, or
/// else what the list says.
pub open spec fn telling(t: ThreadView, live: Option<Map<Seq<char>, IpcView>>) -> StatusView {
    if live matches Some(m) && m.contains_key(t.id) && (m[t.id].status is Active
        || m[t.id].status is SystemError) {
        live->0[t.id].status
    } else {
        t.status
    }
}

/// The snapshot tells of this thread: in the status that its live state or the
/// list gives it, and otherwise as the list has it.
pub open spec fn tells_of(
    x: SnapshotView,
    t: ThreadView,
    live: Option<Map<Seq<char>, IpcView>>,
) -> bool {
    let s = telling(t, live);
    let listed = mapper::snapshot_of(t);
    &&& x == (SnapshotView { status: x.status, waiting_since: x.waiting_since, ..listed })
    &&& x.status is Waiting <==> wants_user(s)
    &&& x.status is Working <==> s is Active && !wants_user(s)
    &&& x.status is Error <==> s is SystemError
    &&& x.status is Idle <==> s is Idle || s is NotLoaded
    &&& x.waiting_since == (if wants_user(s) {
        Some(listed.updated_at)
    } else {
        None
    })
}

proof fn lemma_wants_user(s: StatusView)
    ensures
        wants_user(s) <==> (s matches StatusView::Active { flags } && mapper::asks_user(flags)),
{
    if s is Active {
        let flags = s->Active_flags;
        if flags.contains("waitingOnApproval"@) {
            let i = choose|i: int| 0 <= i < flags.len() && flags[i] == "waitingOnApproval"@;
            assert(flags[i] == "waitingOnApproval"@);
        }
        if flags.contains("waitingOnUserInput"@) {
            let i = choose|i: int| 0 <= i < flags.len() && flags[i] == "waitingOnUserInput"@;
            assert(flags[i] == "waitingOnUserInput"@);
        }
    }
}

proof fn lemma_live_snapshot_tells(t: ThreadView, live: Option<Map<Seq<char>, IpcView>>)
    ensures
        tells_of(with_live(mapper::snapshot_of(t), live), t, live),
{
    lemma_wants_user(t.status);
    lemma_wants_user(telling(t, live));
}

/// What shows of the threads, in full. Candidates are the fresh threads, and of
/// these the first `max`: one that is left out comes after all of them. Rows
/// tell of candidates in their order, on the board only of those that do
/// something or have failed, in the bind picker of all. Gives the positions of
/// the candidates among the threads, and of the rows among the candidates.
pub proof fn lemma_shown_threads(
    threads: Seq<ThreadView>,
    live: Option<Map<Seq<char>, IpcView>>,
    now_sec: u64,
    window: u64,
    max: int,
    keep_idle: bool,
) -> (r: (Seq<int>, Seq<int>))
    requires
        0 <= max,
    ensures
        ({
            let rows = shown(threads, live, now_sec, window, max, keep_idle);
            let (candidates, places) = r;
            &&& candidates.len() <= max
            &&& forall|a: int|
                0 <= a < candidates.len() ==> 0 <= #[trigger] candidates[a] < threads.len()
                    && fresh(threads[candidates[a]], now_sec, window)
            &&& forall|a: int, b: int|
                0 <= a < b < candidates.len() ==> comes_first(
                    threads,
                    #[trigger] candidates[a],
                    #[trigger] candidates[b],
                )
            &&& forall|k: int|
                0 <= k < threads.len() && fresh(#[trigger] threads[k], now_sec, window)
                    && !candidates.contains(k) ==> candidates.len() == max && forall|a: int|
                    0 <= a < max ==> comes_first(threads, #[trigger] candidates[a], k)
            &&& places.len() == rows.len()
            &&& forall|q: int|
                0 <= q < rows.len() ==> 0 <= #[trigger] places[q] < candidates.len() && tells_of(
                    rows[q],
                    threads[candidates[places[q]]],
                    live,
                )
            &&& forall|p: int, q: int|
                0 <= p < q < rows.len() ==> #[trigger] places[p] < #[trigger] places[q]
            &&& forall|a: int|
                0 <= a < candidates.len() ==> (places.contains(a) <==> keep_idle || telling(
                    threads[#[trigger] candidates[a]],
                    live,
                ) is Active || telling(threads[candidates[a]], live) is SystemError)
        }),
{
    let key = |t: ThreadView| thread_rank(t);
    let ranks = threads.map_values(key);
    let p = ordering::order_of(ranks);
    ordering::lemma_order_of(ranks);
    let sorted = ordering::ranked(threads, key);
    let may = |t: ThreadView| eligible(t, now_sec, window);
    let fit = sorted.filter(may);
    let at = lists::lemma_filter_places(sorted, may);
    let m = if max < fit.len() {
        max
    } else {
        fit.len() as int
    };
    let chosen = fit.take(m);
    let candidates = Seq::new(m as nat, |a: int| p[at[a]]);
    assert forall|a: int| 0 <= a < m implies 0 <= #[trigger] candidates[a] < threads.len()
        && fresh(threads[candidates[a]], now_sec, window) && chosen[a] == threads[candidates[a]] by {
        assert(sorted[at[a]] == threads[p[at[a]]]);
        assert(may(sorted[at[a]]));
    }
    assert forall|i: int, j: int| 0 <= i < threads.len() && 0 <= j < threads.len()
        && #[trigger] ordering::precedes(ranks, i, j) implies comes_first(threads, i, j) by {
        lemma_wants_user(threads[i].status);
        lemma_wants_user(threads[j].status);
    }
    assert forall|a: int, b: int| 0 <= a < b < m implies comes_first(
        threads,
        #[trigger] candidates[a],
        #[trigger] candidates[b],
    ) by {
        assert(at[a] < at[b]);
        assert(ordering::precedes(ranks, p[at[a]], p[at[b]]));
    }
    assert forall|k: int|
        0 <= k < threads.len() && fresh(#[trigger] threads[k], now_sec, window)
            && !candidates.contains(k) implies candidates.len() == max && forall|a: int|
        0 <= a < max ==> comes_first(threads, #[trigger] candidates[a], k) by {
        assert(p.contains(k));
        let y = choose|y: int| 0 <= y < p.len() && p[y] == k;
        assert(sorted[y] == threads[k]);
        assert(may(sorted[y]));
        assert(at.contains(y));
        let b = choose|b: int| 0 <= b < at.len() && at[b] == y;
        if b < m {
            assert(candidates[b] == k);
        }
        assert forall|a: int| 0 <= a < max implies comes_first(
            threads,
            #[trigger] candidates[a],
            k,
        ) by {
            assert(at[a] < at[b]);
            assert(ordering::precedes(ranks, p[at[a]], p[at[b]]));
        }
    }
    let f = |t: ThreadView| with_live(mapper::snapshot_of(t), live);
    let keep = |s: SnapshotView| keep_idle || !(s.status is Idle || s.status is Off);
    let mapped = chosen.map_values(f);
    let rows = shown(threads, live, now_sec, window, max, keep_idle);
    assert(rows == mapped.filter(keep));
    let places = lists::lemma_filter_places(mapped, keep);
    assert forall|q: int| 0 <= q < rows.len() implies 0 <= #[trigger] places[q] < candidates.len()
        && tells_of(rows[q], threads[candidates[places[q]]], live) by {
        let t = chosen[places[q]];
        assert(t == threads[candidates[places[q]]]);
        lemma_live_snapshot_tells(t, live);
    }
    assert forall|a: int| 0 <= a < candidates.len() implies (places.contains(a) <==> keep_idle
        || telling(threads[#[trigger] candidates[a]], live) is Active || telling(
        threads[candidates[a]],
        live,
    ) is SystemError) by {
        let t = chosen[a];
        assert(t == threads[candidates[a]]);
        lemma_live_snapshot_tells(t, live);
        assert(mapped[a] == f(t));
        if places.contains(a) {
            let q = choose|q: int| 0 <= q < places.len() && places[q] == a;
            assert(keep(mapped[places[q]]));
        }
    }
    (candidates, places)
}

/// A thread that the desktop application says is active shows on the board with
/// that status, whatever status the list gives it, unless as many fresh threads
/// as fit come before it.
pub proof fn lemma_live_thread_is_on_the_board(
    threads: Seq<ThreadView>,
    live: Map<Seq<char>, IpcView>,
    now_sec: u64,
    window: u64,
    max: int,
    k: int,
) -> (r: (Seq<int>, int))
    requires
        0 <= max,
        0 <= k < threads.len(),
        fresh(threads[k], now_sec, window),
        live.contains_key(threads[k].id),
        live[threads[k].id].status is Active,
    ensures
        ({
            let rows = shown(threads, Some(live), now_sec, window, max, false);
            let waits = wants_user(live[threads[k].id].status);
            ||| 0 <= r.1 < rows.len() && rows[r.1].session_id == threads[k].id && rows[r.1].status
                == (if waits {
                DeckStatus::Waiting
            } else {
                DeckStatus::Working
            })
            ||| r.0.len() == max && r.0.no_duplicates() && forall|a: int|
                0 <= a < max ==> 0 <= #[trigger] r.0[a] < threads.len() && fresh(
                    threads[r.0[a]],
                    now_sec,
                    window,
                ) && comes_first(threads, r.0[a], k)
        }),
{
    let (candidates, places) = lemma_shown_threads(
        threads,
        Some(live),
        now_sec,
        window,
        max,
        false,
    );
    if candidates.contains(k) {
        let a = choose|a: int| 0 <= a < candidates.len() && candidates[a] == k;
        assert(telling(threads[candidates[a]], Some(live)) is Active);
        assert(places.contains(a));
        let q = choose|q: int| 0 <= q < places.len() && places[q] == a;
        assert(places[q] == a);
        (candidates, q)
    } else {
        assert(fresh(threads[k], now_sec, window));
        assert forall|a: int, b: int|
            0 <= a < candidates.len() && 0 <= b < candidates.len() && a != b implies candidates[a]
            != candidates[b] by {
            if a < b {
                assert(comes_first(threads, candidates[a], candidates[b]));
            } else {
                assert(comes_first(threads, candidates[b], candidates[a]));
            }
        }
        (candidates, 0)
    }
}

/// A poll shows threads within the limits of the board, the bind picker within
/// its own, wider or not; idle threads show in the latter only.
pub proof fn lemma_each_list_has_its_limits(
    o: ObserverView,
    threads: Seq<ThreadView>,
    live: Option<Map<Seq<char>, IpcView>>,
    now_sec: u64,
)
    ensures
        o.fetched(ReplyView::Threads(threads), live, now_sec, false) == shown(
            threads,
            live,
            now_sec,
            o.recency_window_secs,
            o.max_threads,
            false,
        ),
        o.fetched(ReplyView::Threads(threads), live, now_sec, true) == shown(
            threads,
            live,
            now_sec,
            o.catalog_recency_window_secs,
            o.catalog_max_threads,
            true,
        ),
{
}

/// Without an answer the board goes on showing what it showed last, and the bind
/// picker shows nothing; once starting the app server has failed, neither shows
/// anything.
pub proof fn lemma_silence_keeps_the_board(
    o: ObserverView,
    reply: ReplyView,
    live: Option<Map<Seq<char>, IpcView>>,
    now_sec: u64,
    catalog: bool,
)
    requires
        !(reply is Threads),
    ensures
        catalog || reply is OpenFailed ==> o.fetched(reply, live, now_sec, catalog).len() == 0,
        !catalog && !(reply is OpenFailed) ==> o.fetched(reply, live, now_sec, catalog) == o.last,
{
}

/// A reply changes nothing of an observer but this: a failed start is
/// remembered, and an app server that did not answer counts as gone.
pub proof fn lemma_replies_leave_the_rest(o: ObserverView, reply: ReplyView)
    ensures
        ({
            let after = o.after_reply(reply);
            &&& after == (ObserverView {
                connected: after.connected,
                open_failed: after.open_failed,
                ..o
            })
            &&& after.connected <==> o.connected && !(reply is RequestFailed)
            &&& after.open_failed <==> o.open_failed || reply is OpenFailed
        }),
{
}

/// Stopping the session of a key stops that session and no other, whatever
/// showed last. Approvals are refused for want of a request, all other actions
/// as not supported.
pub proof fn lemma_plans(o: ObserverView, action: Action, session: Seq<char>)
    ensures
        action is Stop ==> o.plan_for(action, session) == PlanView::Stop(seq![session]),
        action is Accept ==> o.plan_for(action, session) == PlanView::Status(
            "unsupported:accept:no_request_id"@,
        ),
        action is Reject ==> o.plan_for(action, session) == PlanView::Status(
            "unsupported:reject:no_request_id"@,
        ),
        !(action is Stop || action is StopAll) ==> !(o.plan_for(action, session) is Stop)
            && !(o.plan(action) is Stop),
{
    reveal_strlit("unsupported:");
    reveal_strlit("accept");
    reveal_strlit("reject");
    reveal_strlit(":no_request_id");
    reveal_strlit("unsupported:accept:no_request_id");
    reveal_strlit("unsupported:reject:no_request_id");
    if action is Accept {
        assert("unsupported:"@ + action.tag() + ":no_request_id"@
            =~= "unsupported:accept:no_request_id"@);
    }
    if action is Reject {
        assert("unsupported:"@ + action.tag() + ":no_request_id"@
            =~= "unsupported:reject:no_request_id"@);
    }
}

/// Without a session, stopping a key stops the thread at its number among those
/// that showed last, or the first one without a number; without such a thread
/// it is refused.
pub proof fn lemma_stop_without_a_session(o: ObserverView, i: Option<usize>)
    ensures
        ({
            let k = match i {
                Some(x) => x as int,
                None => 0,
            };
            let plan = o.plan(Action::Stop { i });
            &&& k < o.last.len() ==> plan == PlanView::Stop(seq![o.last[k].session_id])
            &&& k >= o.last.len() ==> plan == PlanView::Status("unsupported:stop:no_target"@)
        }),
{
    reveal_strlit("unsupported:");
    reveal_strlit("stop");
    reveal_strlit(":no_target");
    reveal_strlit("unsupported:stop:no_target");
    assert("unsupported:"@ + "stop"@ + ":no_target"@ =~= "unsupported:stop:no_target"@);
}

/// Stop-all stops a list of threads if any is busy, and is refused otherwise.
pub proof fn lemma_stop_all_plan(o: ObserverView)
    ensures
        (exists|k: int|
            0 <= k < o.last.len() && ((#[trigger] o.last[k]).status is Working
                || o.last[k].status is Waiting)) ==> o.plan(Action::StopAll) == PlanView::Stop(
            o.targets(Action::StopAll),
        ),
        (forall|k: int|
            0 <= k < o.last.len() ==> !((#[trigger] o.last[k]).status is Working)
                && !(o.last[k].status is Waiting)) ==> o.plan(Action::StopAll)
            == PlanView::Status("unsupported:stop_all:no_target"@),
{
    if exists|k: int|
        0 <= k < o.last.len() && ((#[trigger] o.last[k]).status is Working || o.last[k].status
            is Waiting) {
        let k = choose|k: int|
            0 <= k < o.last.len() && ((#[trigger] o.last[k]).status is Working || o.last[k].status
                is Waiting);
        lemma_stop_all_stops_the_busy(o, o.last[k].session_id);
        assert(o.targets(Action::StopAll).contains(o.last[k].session_id));
    } else {
        let t = o.targets(Action::StopAll);
        if t.len() > 0 {
            lemma_stop_all_stops_the_busy(o, t[0]);
            assert(t.contains(t[0]));
        }
        reveal_strlit("unsupported:");
        reveal_strlit("stop_all");
        reveal_strlit(":no_target");
        reveal_strlit("unsupported:stop_all:no_target");
        assert("unsupported:"@ + "stop_all"@ + ":no_target"@
            =~= "unsupported:stop_all:no_target"@);
    }
}

/// What is neither stopping nor an approval is refused by its name, with a session
/// or without one; without one an approval is refused as with one.
pub proof fn lemma_other_actions_are_refused(o: ObserverView, action: Action, session: Seq<char>)
    requires
        !(action is Stop || action is StopAll),
    ensures
        o.plan(action) == o.plan_for(action, session),
        !(action is Accept || action is Reject) ==> o.plan(action) == PlanView::Status(
            "unsupported:"@ + action.tag(),
        ),
{
}

/// What failed first is told, whatever failed or did not after it; where nothing
/// failed, nothing is.
pub proof fn lemma_first_failure_is_told(failures: Seq<Option<String>>, k: int)
    requires
        0 <= k <= failures.len(),
        forall|j: int| 0 <= j < k ==> (#[trigger] failures[j]) is None,
        k < failures.len() ==> failures[k] is Some,
    ensures
        k < failures.len() ==> first_failure(failures) == Some(failures[k]->0@),
        k == failures.len() ==> first_failure(failures) is None,
    decreases failures.len(),
{
    if failures.len() > 0 {
        let t = failures.drop_last();
        let m = if k < t.len() {
            k
        } else {
            t.len() as int
        };
        assert forall|j: int| 0 <= j < m implies (#[trigger] t[j]) is None by {
            assert(failures[j] is None);
        }
        lemma_first_failure_is_told(t, m);
    }
}

/// The threads that were stopped are named in a row, with a comma between each two.
pub proof fn lemma_listed_with_commas(ids: Seq<Seq<char>>, id: Seq<char>)
    ensures
        listed(Seq::empty()).len() == 0,
        listed(seq![id]) == id,
        ids.len() > 0 ==> listed(ids.push(id)) == listed(ids) + ","@ + id,
{
    assert(ids.push(id).drop_last() =~= ids);
}

/// The turn to interrupt is the text under the id of the last turn of the thread;
/// an answer that does not hold one has none.
pub proof fn lemma_turn_of_a_resumed_thread(result: JsonView)
    ensures
        ({
            let thread = result->Object_0["thread"@];
            let turn = thread->Object_0["lastTurn"@];
            let whole = {
                &&& result is Object && result->Object_0.contains_key("thread"@)
                &&& thread is Object && thread->Object_0.contains_key("lastTurn"@)
                &&& turn is Object && turn->Object_0.contains_key("id"@)
                &&& turn->Object_0["id"@] is Text
            };
            &&& whole ==> turn_in(result) == Some(turn->Object_0["id"@]->Text_0)
            &&& !whole ==> turn_in(result) is None
        }),
{
}

} // verus!
