//! The host: asks the backends for their sessions, keeps the board up to date
//! and routes key actions to the backend that owns the session.
use crate::board::session_board;
use crate::board::session_board::{BoardView, SessionBoard};
use crate::board::slot_allocator;
use crate::lists;
use crate::ordering;
use crate::ordering::Rank;
use crate::protocol;
use crate::protocol::{
    Action, BackendId, BoardState, BoardStateView, DeckStatus, LedFrame, LedFrameView,
    ProjectCategory, SessionSnapshot, SnapshotView, DONE_TTL_MS, DONE_TTL_UNOPENED_MS,
};
use crate::selection;
use crate::text;
use crate::text_map::TextMap;
use std::collections::HashMap;
use vstd::prelude::*;

verus! {

/// `SystemTime::now`, as milliseconds since the Unix epoch, 0 for a clock set
/// before it. Nothing is promised of the result: it is whatever the clock shows.
#[verifier::external_body]
pub fn now_ms() -> (r: u64) {
    std::time::SystemTime::now()
        .duration_since(std::time::UNIX_EPOCH)
        .map(|d| d.as_millis() as u64)
        .unwrap_or(0)
}

/// The status of a session after Done has faded.
///
/// Only Done sessions of WorkBuddy fade. One that the user opened since it was
/// done stays Done for `after_open_ms` from the opening, one that was not
/// opened since for `unopened_ms` from its end.
pub open spec fn faded(
    s: SnapshotView,
    opened_at: Option<u64>,
    now: u64,
    after_open_ms: u64,
    unopened_ms: u64,
) -> DeckStatus {
    if s.backend != BackendId::Workbuddy || s.status != DeckStatus::Done {
        s.status
    } else if opened_at is Some && opened_at->0 >= s.updated_at {
        if now - opened_at->0 > after_open_ms {
            DeckStatus::Idle
        } else {
            DeckStatus::Done
        }
    } else if now - s.updated_at > unopened_ms {
        DeckStatus::Idle
    } else {
        DeckStatus::Done
    }
}

/// The status of a session after Done has faded.
pub fn decay_done_status(
    snap: &SessionSnapshot,
    opened_at: Option<u64>,
    now: u64,
    after_open_ms: u64,
    unopened_ms: u64,
) -> (r: DeckStatus)
    ensures
        r == faded(snap@, opened_at, now, after_open_ms, unopened_ms),
{
    if snap.backend != BackendId::Workbuddy || snap.status != DeckStatus::Done {
        return snap.status;
    }
    let done_since: u64 = snap.updated_at;
    if let Some(opened) = opened_at {
        if opened >= done_since {
            return if now.saturating_sub(opened) > after_open_ms {
                DeckStatus::Idle
            } else {
                DeckStatus::Done
            };
        }
    }
    if now.saturating_sub(done_since) > unopened_ms {
        DeckStatus::Idle
    } else {
        DeckStatus::Done
    }
}

/// Only Done sessions of WorkBuddy fade, and only to Idle.
pub proof fn lemma_only_workbuddy_done_fades(
    s: SnapshotView,
    opened_at: Option<u64>,
    now: u64,
    after_open_ms: u64,
    unopened_ms: u64,
)
    ensures
        faded(s, opened_at, now, after_open_ms, unopened_ms) != s.status ==> s.backend
            == BackendId::Workbuddy && s.status == DeckStatus::Done && faded(
            s,
            opened_at,
            now,
            after_open_ms,
            unopened_ms,
        ) == DeckStatus::Idle,
{
}

/// A session that has faded stays faded: time alone never turns it Done again.
pub proof fn lemma_fading_is_final(
    s: SnapshotView,
    opened_at: Option<u64>,
    earlier: u64,
    later: u64,
    after_open_ms: u64,
    unopened_ms: u64,
)
    requires
        earlier <= later,
        s.status is Done,
        faded(s, opened_at, earlier, after_open_ms, unopened_ms) is Idle,
    ensures
        faded(s, opened_at, later, after_open_ms, unopened_ms) is Idle,
{
}

/// Opening a session before it was done is no opening of the finished session.
pub proof fn lemma_early_opening_does_not_count(
    s: SnapshotView,
    opened_at: u64,
    now: u64,
    after_open_ms: u64,
    unopened_ms: u64,
)
    requires
        opened_at < s.updated_at,
    ensures
        faded(s, Some(opened_at), now, after_open_ms, unopened_ms) == faded(
            s,
            None,
            now,
            after_open_ms,
            unopened_ms,
        ),
{
}

/// The key under which an opening is remembered.
pub open spec fn open_key(backend: BackendId, session_id: Seq<char>) -> Seq<char> {
    backend.label() + ":"@ + session_id
}

/// The key under which an opening is remembered.
fn opened_key(backend: BackendId, session_id: &str) -> (r: String)
    ensures
        r@ == open_key(backend, session_id@),
{
    let mut r = String::new();
    r.append(backend.name());
    r.append(":");
    r.append(session_id);
    assert(r@ =~= open_key(backend, session_id@));
    r
}

/// Two sessions never share a key.
pub proof fn lemma_open_key_tells_sessions_apart(
    b1: BackendId,
    id1: Seq<char>,
    b2: BackendId,
    id2: Seq<char>,
)
    requires
        open_key(b1, id1) == open_key(b2, id2),
    ensures
        b1 == b2,
        id1 == id2,
{
    reveal_strlit("zcode");
    reveal_strlit("codex");
    reveal_strlit("workbuddy");
    reveal_strlit(":");
    let k1 = open_key(b1, id1);
    let k2 = open_key(b2, id2);
    assert(k1[0] == b1.label()[0]);
    assert(k2[0] == b2.label()[0]);
    assert(b1 == b2);
    let n = b1.label().len() + 1;
    assert(id1 =~= k1.skip(n as int));
    assert(id2 =~= k2.skip(n as int));
}

/// How Done sessions fade: when sessions were opened, and the two delays.
#[verifier::ext_equal]
pub struct FadeView {
    pub opened: Map<Seq<char>, u64>,
    pub after_open_ms: u64,
    pub unopened_ms: u64,
}

impl FadeView {
    /// When a session was opened.
    pub open spec fn opened_at(self, s: SnapshotView) -> Option<u64> {
        let key = open_key(s.backend, s.session_id);
        if self.opened.contains_key(key) {
            Some(self.opened[key])
        } else {
            None
        }
    }

    /// A session after Done has faded.
    pub open spec fn fade(self, s: SnapshotView, now: u64) -> SnapshotView {
        SnapshotView {
            status: faded(s, self.opened_at(s), now, self.after_open_ms, self.unopened_ms),
            ..s
        }
    }

    /// Sessions after Done has faded.
    pub open spec fn fade_all(self, s: Seq<SnapshotView>, now: u64) -> Seq<SnapshotView> {
        s.map_values(|x: SnapshotView| self.fade(x, now))
    }
}

/// Sessions after Done has faded.
fn apply_done_decay(
    snaps: Vec<SessionSnapshot>,
    opened_at: &TextMap<u64>,
    now: u64,
    after_open_ms: u64,
    unopened_ms: u64,
) -> (r: Vec<SessionSnapshot>)
    ensures
        protocol::snapshots(r@) == (FadeView {
            opened: opened_at@,
            after_open_ms,
            unopened_ms,
        }).fade_all(protocol::snapshots(snaps@), now),
{
    let ghost fade = FadeView { opened: opened_at@, after_open_ms, unopened_ms };
    let mut out: Vec<SessionSnapshot> = Vec::new();
    let mut i: usize = 0;
    while i < snaps.len()
        invariant
            i <= snaps@.len(),
            fade == (FadeView { opened: opened_at@, after_open_ms, unopened_ms }),
            out@.len() == i,
            forall|j: int| 0 <= j < i ==> (#[trigger] out@[j])@ == fade.fade(snaps@[j]@, now),
        decreases snaps@.len() - i,
    {
        let mut snap = snaps[i].clone();
        let key = opened_key(snap.backend, snap.session_id.as_str());
        let opened: Option<u64> = match opened_at.get(key.as_str()) {
            Some(t) => Some(*t),
            None => None,
        };
        let next = decay_done_status(&snap, opened, now, after_open_ms, unopened_ms);
        snap.status = next;
        out.push(snap);
        i = i + 1;
    }
    assert(protocol::snapshots(out@) =~= fade.fade_all(protocol::snapshots(snaps@), now));
    out
}

/// Why a backend could not answer.
#[derive(Debug)]
pub struct BackendError {
    pub message: String,
}

/// The content of what a backend answers.
pub open spec fn reply_view(r: Result<Vec<SessionSnapshot>, BackendError>) -> Result<
    Seq<SnapshotView>,
    Seq<char>,
> {
    match r {
        Ok(snaps) => Ok(protocol::snapshots(snaps@)),
        Err(e) => Err(e.message@),
    }
}

/// What is left of a backend's answer for these sessions. A failure stays one.
pub open spec fn kept_of(
    reply: Result<Seq<SnapshotView>, Seq<char>>,
    ids: Seq<Seq<char>>,
) -> Result<Seq<SnapshotView>, Seq<char>> {
    match reply {
        Ok(snaps) => Ok(selection::with_ids(snaps, ids)),
        Err(e) => Err(e),
    }
}

/// One backend's session observer. Each agent host that the deck supports has
/// its own implementation, which may also say what its answers can be: unless
/// it does, nothing is known of them.
pub trait BackendObserver: Send {
    /// Which observer this is; no call changes it.
    open spec fn identity(&self) -> int {
        0
    }

    /// In this state `id` may be this backend.
    open spec fn may_be(&self, id: BackendId) -> bool {
        true
    }

    /// In this state `poll` may answer so.
    open spec fn may_poll(&self, reply: Result<Seq<SnapshotView>, Seq<char>>) -> bool {
        true
    }

    /// In this state `list_catalog` may answer so.
    open spec fn may_list(&self, reply: Result<Seq<SnapshotView>, Seq<char>>) -> bool {
        true
    }

    /// In this state `poll_pinned` may answer so for these sessions.
    open spec fn may_pin(
        &self,
        ids: Seq<Seq<char>>,
        reply: Result<Seq<SnapshotView>, Seq<char>>,
    ) -> bool {
        true
    }

    /// In this state `dispatch` may make this of the action.
    open spec fn may_do(&self, action: Action, outcome: Result<Seq<char>, Seq<char>>) -> bool {
        true
    }

    /// In this state `dispatch_for` may make this of the action on the session.
    open spec fn may_do_for(
        &self,
        session: Seq<char>,
        action: Action,
        outcome: Result<Seq<char>, Seq<char>>,
    ) -> bool {
        true
    }

    /// Which backend this is.
    fn id(&self) -> (r: BackendId)
        ensures
            self.may_be(r),
    ;

    /// The sessions that are to show on the board now.
    fn poll(&mut self) -> (r: Result<Vec<SessionSnapshot>, BackendError>)
        ensures
            old(self).may_poll(reply_view(r)),
            final(self).identity() == old(self).identity(),
    ;

    /// All sessions there are, for the bind picker. For an observer without a
    /// history of its own, `catalog_from_poll` answers.
    fn list_catalog(&mut self) -> (r: Result<Vec<SessionSnapshot>, BackendError>)
        ensures
            old(self).may_list(reply_view(r)),
            final(self).identity() == old(self).identity(),
    ;

    /// The latest state of these sessions, whether or not `poll` shows them. An
    /// observer answers for its own sessions only. For one that knows no others
    /// than `poll` shows, `pinned_from_poll` answers.
    fn poll_pinned(&mut self, ids: &[String]) -> (r: Result<Vec<SessionSnapshot>, BackendError>)
        ensures
            old(self).may_pin(text::texts(ids@), reply_view(r)),
            final(self).identity() == old(self).identity(),
    ;

    /// Performs a key action that concerns no single session. `Err` only when a
    /// supported action could not be delivered; `refuse` answers for one that is
    /// not supported.
    fn dispatch(&mut self, action: &Action) -> (r: Result<String, BackendError>)
        ensures
            old(self).may_do(*action, outcome_view(r)),
            final(self).identity() == old(self).identity(),
    ;

    /// Performs a key action on the session of the key it was meant for. `Err`
    /// only when a supported action could not be delivered; `refuse` answers for
    /// one that is not supported.
    fn dispatch_for(&mut self, action: &Action, session_id: &str) -> (r: Result<
        String,
        BackendError,
    >)
        ensures
            old(self).may_do_for(session_id@, *action, outcome_view(r)),
            final(self).identity() == old(self).identity(),
    ;

    /// The catalog of an observer that has no history: what it shows now.
    fn catalog_from_poll(&mut self) -> (r: Result<Vec<SessionSnapshot>, BackendError>)
        ensures
            old(self).may_poll(reply_view(r)),
            final(self).identity() == old(self).identity(),
    {
        self.poll()
    }

    /// The latest state of those of these sessions that the observer shows now.
    fn pinned_from_poll(&mut self, ids: &[String]) -> (r: Result<
        Vec<SessionSnapshot>,
        BackendError,
    >)
        ensures
            exists|polled: Result<Seq<SnapshotView>, Seq<char>>| #[trigger]
                old(self).may_poll(polled) && reply_view(r) == kept_of(polled, text::texts(ids@)),
            r matches Ok(v) ==> forall|j: int|
                0 <= j < v@.len() ==> text::texts(ids@).contains((#[trigger] v@[j]).session_id@),
            final(self).identity() == old(self).identity(),
    {
        let polled = self.poll();
        let ghost reply = reply_view(polled);
        assert(old(self).may_poll(reply));
        match polled {
            Ok(snaps) => {
                let v = selection::keep_ids(&snaps, ids);
                proof {
                    lists::lemma_filter_contains(
                        protocol::snapshots(snaps@),
                        |x: SnapshotView| text::texts(ids@).contains(x.session_id),
                    );
                    assert forall|j: int| 0 <= j < v@.len() implies text::texts(ids@).contains(
                        (#[trigger] v@[j]).session_id@,
                    ) by {
                        let x = protocol::snapshots(v@)[j];
                        assert(protocol::snapshots(v@).contains(x));
                    }
                }
                Ok(v)
            },
            Err(e) => Err(e),
        }
    }

    /// What is answered for an action that the observer does not support.
    fn refuse(&self, action: &Action) -> (r: Result<String, BackendError>)
        ensures
            refuses(*action, outcome_view(r)),
    {
        Ok(status2("unsupported:", action.op_tag()))
    }
}

/// The text `a` followed by `b`.
fn status2(a: &str, b: &str) -> (r: String)
    ensures
        r@ == a@ + b@,
{
    let mut s = String::new();
    s.append(a);
    s.append(b);
    assert(s@ =~= a@ + b@);
    s
}

/// The text `a` followed by `b` and `c`.
fn status3(a: &str, b: &str, c: &str) -> (r: String)
    ensures
        r@ == a@ + b@ + c@,
{
    let mut s = status2(a, b);
    s.append(c);
    s
}

/// What one observer answered in a tick: the sessions it polled, and the pinned
/// ones. None where it failed or was not asked.
#[derive(Debug)]
pub struct BackendAnswer {
    pub id: BackendId,
    pub polled: Option<Vec<SessionSnapshot>>,
    pub pinned: Option<Vec<SessionSnapshot>>,
}

/// The content of an optional list of snapshots.
pub open spec fn some_snapshots(v: Option<Vec<SessionSnapshot>>) -> Option<Seq<SnapshotView>> {
    match v {
        Some(s) => Some(protocol::snapshots(s@)),
        None => None,
    }
}

impl View for BackendAnswer {
    type V = Answer;

    open spec fn view(&self) -> Answer {
        Answer {
            id: self.id,
            polled: some_snapshots(self.polled),
            pinned: some_snapshots(self.pinned),
        }
    }
}

/// The contents of a list of answers.
pub open spec fn answer_views(a: Seq<BackendAnswer>) -> Seq<Answer> {
    a.map_values(|x: BackendAnswer| x@)
}

/// The content of a `BackendAnswer`.
#[verifier::ext_equal]
pub struct Answer {
    pub id: BackendId,
    pub polled: Option<Seq<SnapshotView>>,
    pub pinned: Option<Seq<SnapshotView>>,
}

/// The board after a backend reported these sessions.
pub open spec fn with_report(
    b: BoardView,
    fade: FadeView,
    backend: BackendId,
    snaps: Seq<SnapshotView>,
    now: u64,
) -> BoardView {
    (BoardView {
        entries: session_board::replaced(b.entries, backend, fade.fade_all(snaps, now), b.pins),
        ..b
    }).refreshed(now)
}

/// The board after a backend gave the latest state of pinned sessions.
pub open spec fn with_pinned(
    b: BoardView,
    fade: FadeView,
    snaps: Seq<SnapshotView>,
    now: u64,
) -> BoardView {
    if snaps.len() == 0 {
        b
    } else {
        (BoardView {
            entries: session_board::upsert_each(b.entries, fade.fade_all(snaps, now)),
            ..b
        }).refreshed(now)
    }
}

/// The board after one observer has answered. A failed poll changes nothing.
pub open spec fn answered(b: BoardView, fade: FadeView, a: Answer, now: u64) -> BoardView {
    match a.polled {
        None => b,
        Some(snaps) => {
            let reported = with_report(b, fade, a.id, snaps, now);
            match a.pinned {
                None => reported,
                Some(p) => with_pinned(reported, fade, p, now),
            }
        },
    }
}

/// The board after these observers have answered, one after the other.
pub open spec fn all_answered(b: BoardView, fade: FadeView, a: Seq<Answer>, now: u64) -> BoardView
    decreases a.len(),
{
    if a.len() == 0 {
        b
    } else {
        answered(all_answered(b, fade, a.drop_last(), now), fade, a.last(), now)
    }
}

/// Session row for the bind picker.
#[derive(Debug)]
pub struct SessionInfo {
    pub backend: BackendId,
    pub session_id: String,
    pub title: String,
    pub status: DeckStatus,
    pub workspace_path: Option<String>,
    pub detail: Option<String>,
    pub updated_at: u64,
    pub project_category: Option<ProjectCategory>,
    pub project_label: Option<String>,
}

/// The content of a `SessionInfo`.
#[verifier::ext_equal]
pub struct InfoView {
    pub backend: BackendId,
    pub session_id: Seq<char>,
    pub title: Seq<char>,
    pub status: DeckStatus,
    pub workspace_path: Option<Seq<char>>,
    pub detail: Option<Seq<char>>,
    pub updated_at: u64,
    pub project_category: Option<ProjectCategory>,
    pub project_label: Option<Seq<char>>,
}

impl View for SessionInfo {
    type V = InfoView;

    open spec fn view(&self) -> InfoView {
        InfoView {
            backend: self.backend,
            session_id: self.session_id@,
            title: self.title@,
            status: self.status,
            workspace_path: text::opt(self.workspace_path),
            detail: text::opt(self.detail),
            updated_at: self.updated_at,
            project_category: self.project_category,
            project_label: text::opt(self.project_label),
        }
    }
}

/// The picker row of a session.
pub open spec fn info_of(s: SnapshotView) -> InfoView {
    InfoView {
        backend: s.backend,
        session_id: s.session_id,
        title: s.title,
        status: s.status,
        workspace_path: s.workspace_path,
        detail: s.detail,
        updated_at: s.updated_at,
        project_category: s.project_category,
        project_label: s.project_label,
    }
}

/// The contents of a list of picker rows.
pub open spec fn infos(s: Seq<SessionInfo>) -> Seq<InfoView> {
    s.map_values(|x: SessionInfo| x@)
}

impl<'a> vstd::std_specs::convert::FromSpecImpl<&'a SessionSnapshot> for SessionInfo {
    open spec fn obeys_from_spec() -> bool {
        true
    }

    open spec fn from_spec(s: &'a SessionSnapshot) -> SessionInfo {
        SessionInfo {
            backend: s.backend,
            session_id: s.session_id,
            title: s.title,
            status: s.status,
            workspace_path: s.workspace_path,
            detail: s.detail,
            updated_at: s.updated_at,
            project_category: s.project_category,
            project_label: s.project_label,
        }
    }
}

impl<'a> From<&'a SessionSnapshot> for SessionInfo {
    fn from(s: &'a SessionSnapshot) -> (r: SessionInfo) {
        SessionInfo {
            backend: s.backend,
            session_id: s.session_id.clone(),
            title: s.title.clone(),
            status: s.status,
            workspace_path: text::clone_opt(&s.workspace_path),
            detail: text::clone_opt(&s.detail),
            updated_at: s.updated_at,
            project_category: s.project_category,
            project_label: text::clone_opt(&s.project_label),
        }
    }
}

/// The picker row of a session.
fn info(s: &SessionSnapshot) -> (r: SessionInfo)
    ensures
        r@ == info_of(s@),
{
    SessionInfo::from(s)
}

/// A row for this session is among `rows`.
pub open spec fn listed(rows: Seq<InfoView>, backend: BackendId, id: Seq<char>) -> bool {
    exists|i: int|
        0 <= i < rows.len() && (#[trigger] rows[i]).backend == backend && rows[i].session_id == id
}

/// `rows` and a row for each of these sessions that has none yet.
pub open spec fn collected(rows: Seq<InfoView>, snaps: Seq<SnapshotView>) -> Seq<InfoView>
    decreases snaps.len(),
{
    if snaps.len() == 0 {
        rows
    } else {
        let r = collected(rows, snaps.drop_last());
        let x = snaps.last();
        if listed(r, x.backend, x.session_id) {
            r
        } else {
            r.push(info_of(x))
        }
    }
}

/// A row for each session of these catalogs, the first mention counting.
pub open spec fn gathered(catalogs: Seq<Seq<SnapshotView>>) -> Seq<InfoView>
    decreases catalogs.len(),
{
    if catalogs.len() == 0 {
        Seq::empty()
    } else {
        collected(gathered(catalogs.drop_last()), catalogs.last())
    }
}

/// Rank of a picker row: priority of the status, then the last update.
pub open spec fn info_rank(r: InfoView) -> Rank {
    Rank { first: r.status.spec_priority() as u64, second: r.updated_at, third: 0 }
}

/// The picker rows of these catalogs, by priority of the status, then the
/// latest first.
pub open spec fn merged(catalogs: Seq<Seq<SnapshotView>>) -> Seq<InfoView> {
    ordering::ranked(gathered(catalogs), |r: InfoView| info_rank(r))
}

/// The contents of a list of catalogs.
pub open spec fn catalog_views(c: Seq<Vec<SessionSnapshot>>) -> Seq<Seq<SnapshotView>> {
    c.map_values(|v: Vec<SessionSnapshot>| protocol::snapshots(v@))
}

/// Whether a row for this session is among `rows`.
fn is_listed(rows: &Vec<SessionInfo>, backend: BackendId, id: &str) -> (r: bool)
    ensures
        r == listed(infos(rows@), backend, id@),
{
    let ghost v = infos(rows@);
    let mut i: usize = 0;
    while i < rows.len()
        invariant
            i <= rows@.len(),
            v == infos(rows@),
            forall|j: int|
                0 <= j < i ==> !((#[trigger] v[j]).backend == backend && v[j].session_id == id@),
        decreases rows@.len() - i,
    {
        if rows[i].backend == backend && text::same(rows[i].session_id.as_str(), id) {
            assert(v[i as int].backend == backend && v[i as int].session_id == id@);
            return true;
        }
        i = i + 1;
    }
    false
}

/// The picker rows of these catalogs: one per session, the first mention
/// counting, by priority of the status, then the latest first.
pub fn merge_catalogs(catalogs: &Vec<Vec<SessionSnapshot>>) -> (r: Vec<SessionInfo>)
    ensures
        infos(r@) == merged(catalog_views(catalogs@)),
{
    let ghost all = catalog_views(catalogs@);
    let mut rows: Vec<SessionInfo> = Vec::new();
    let mut c: usize = 0;
    assert(all.take(0) == Seq::<Seq<SnapshotView>>::empty());
    assert(infos(rows@) =~= gathered(all.take(0)));
    while c < catalogs.len()
        invariant
            c <= catalogs@.len(),
            all == catalog_views(catalogs@),
            infos(rows@) == gathered(all.take(c as int)),
        decreases catalogs@.len() - c,
    {
        let snaps = &catalogs[c];
        let ghost views = protocol::snapshots(snaps@);
        let ghost start = infos(rows@);
        let mut i: usize = 0;
        assert(views.take(0) == Seq::<SnapshotView>::empty());
        while i < snaps.len()
            invariant
                i <= snaps@.len(),
                views == protocol::snapshots(snaps@),
                infos(rows@) == collected(start, views.take(i as int)),
            decreases snaps@.len() - i,
        {
            assert(views.take(i + 1).drop_last() == views.take(i as int));
            assert(views.take(i + 1).last() == snaps@[i as int]@);
            if !is_listed(&rows, snaps[i].backend, snaps[i].session_id.as_str()) {
                let ghost had = rows@;
                rows.push(info(&snaps[i]));
                assert(infos(rows@) =~= infos(had).push(info_of(snaps@[i as int]@)));
            }
            i = i + 1;
        }
        assert(views.take(i as int) == views);
        assert(all.take(c + 1).drop_last() == all.take(c as int));
        assert(all.take(c + 1).last() == views);
        c = c + 1;
    }
    assert(all.take(c as int) == all);
    let ghost key = |r: InfoView| info_rank(r);
    let ghost rv = infos(rows@);
    let mut ranks: Vec<Rank> = Vec::new();
    let mut i: usize = 0;
    while i < rows.len()
        invariant
            i <= rows@.len(),
            ranks@.len() == i,
            forall|j: int| 0 <= j < i ==> #[trigger] ranks@[j] == info_rank(rows@[j]@),
        decreases rows@.len() - i,
    {
        ranks.push(
            Rank { first: rows[i].status.priority() as u64, second: rows[i].updated_at, third: 0 },
        );
        i = i + 1;
    }
    assert(ranks@ =~= rv.map_values(key));
    let p = ordering::order(&ranks);
    let ghost order = ordering::as_ints(p@);
    assert forall|b: int| 0 <= b < p@.len() implies 0 <= #[trigger] p@[b] < rows@.len() by {
        assert(0 <= order[b] < ranks@.len());
    }
    let mut out: Vec<SessionInfo> = Vec::new();
    let mut a: usize = 0;
    while a < p.len()
        invariant
            a <= p@.len(),
            out@.len() == a,
            forall|b: int| 0 <= b < p@.len() ==> 0 <= #[trigger] p@[b] < rows@.len(),
            forall|b: int| 0 <= b < a ==> (#[trigger] out@[b])@ == rows@[p@[b] as int]@,
        decreases p@.len() - a,
    {
        out.push(rows[p[a]].clone());
        a = a + 1;
    }
    assert(infos(out@) =~= ordering::pick(rv, order));
    out
}

impl Clone for SessionInfo {
    fn clone(&self) -> (r: SessionInfo)
        ensures
            r == *self,
    {
        SessionInfo {
            backend: self.backend,
            session_id: self.session_id.clone(),
            title: self.title.clone(),
            status: self.status,
            workspace_path: text::clone_opt(&self.workspace_path),
            detail: text::clone_opt(&self.detail),
            updated_at: self.updated_at,
            project_category: self.project_category,
            project_label: text::clone_opt(&self.project_label),
        }
    }
}

/// Where a key action goes.
pub enum ActionRoute {
    /// Nowhere: this is the answer.
    Status(String),
    /// To every backend.
    Broadcast,
    /// To the backend of the session on the targeted key, with the session's id.
    Backend(BackendId, String),
}

/// The content of an `ActionRoute`.
#[verifier::ext_equal]
pub enum RouteView {
    Status(Seq<char>),
    Broadcast,
    Backend(BackendId, Seq<char>),
}

impl View for ActionRoute {
    type V = RouteView;

    open spec fn view(&self) -> RouteView {
        match self {
            ActionRoute::Status(s) => RouteView::Status(s@),
            ActionRoute::Broadcast => RouteView::Broadcast,
            ActionRoute::Backend(b, id) => RouteView::Backend(*b, id@),
        }
    }
}

/// The key that an action names.
pub open spec fn named_slot(action: Action) -> Option<usize> {
    match action {
        Action::Accept { i } => i,
        Action::Reject { i } => i,
        Action::Stop { i } => i,
        Action::Send { i, .. } => i,
        _ => None,
    }
}

/// The action concerns one session.
pub open spec fn slot_scoped(action: Action) -> bool {
    action is Accept || action is Reject || action is Stop || action is Send
}

/// Where a key action goes: one that concerns a session to the backend of the
/// key it names, or else of the focused key; stop-all to every backend; all
/// others nowhere.
pub open spec fn routed(b: BoardView, action: Action) -> RouteView {
    let refused = "unsupported:"@ + action.tag();
    if action is StopAll {
        RouteView::Broadcast
    } else if !slot_scoped(action) {
        RouteView::Status(refused)
    } else {
        let i = match named_slot(action) {
            Some(i) => i as int,
            None => b.focus,
        };
        match b.board {
            None => RouteView::Status(refused + ":no_board"@),
            Some(state) => if i >= state.slots.len() {
                RouteView::Status(refused + ":bad_slot"@)
            } else {
                match (state.slots[i].backend, state.slots[i].session_id) {
                    (Some(backend), Some(id)) => RouteView::Backend(backend, id),
                    _ => RouteView::Status(refused + ":empty_slot"@),
                }
            },
        }
    }
}

/// What is answered for the outcome of an action: the backend's own status, or
/// its error.
pub open spec fn outcome_status(tag: Seq<char>, outcome: Result<Seq<char>, Seq<char>>) -> Seq<
    char,
> {
    match outcome {
        Ok(s) => s,
        Err(e) => "error:"@ + tag + ":"@ + e,
    }
}

/// The content of a dispatch outcome.
pub open spec fn outcome_view(r: Result<String, BackendError>) -> Result<Seq<char>, Seq<char>> {
    match r {
        Ok(s) => Ok(s@),
        Err(e) => Err(e.message@),
    }
}

/// What is answered for the outcome of an action.
pub fn dispatch_status(tag: &str, outcome: Result<String, BackendError>) -> (r: String)
    ensures
        r@ == outcome_status(tag@, outcome_view(outcome)),
{
    match outcome {
        Ok(s) => s,
        Err(e) => {
            let mut s = status3("error:", tag, ":");
            s.append(e.message.as_str());
            s
        },
    }
}

/// What is answered for an action sent to every backend: the last outcome.
pub open spec fn broadcast_status(outcomes: Seq<Result<Seq<char>, Seq<char>>>) -> Seq<char> {
    if outcomes.len() == 0 {
        "ok:stop_all:noop"@
    } else {
        outcome_status("stop_all"@, outcomes.last())
    }
}

/// The outcome says that the action is not supported.
pub open spec fn refuses(action: Action, outcome: Result<Seq<char>, Seq<char>>) -> bool {
    outcome == Ok::<Seq<char>, Seq<char>>("unsupported:"@ + action.tag())
}

/// Observer `j` may make this of an action that it is handed without a session.
pub open spec fn may_make(
    before: Seq<Box<dyn BackendObserver>>,
    j: int,
    action: Action,
    outcome: Result<Seq<char>, Seq<char>>,
) -> bool {
    before[j].may_do(action, outcome)
}

/// Observer `j` may make this of an action on this session.
pub open spec fn may_make_for(
    before: Seq<Box<dyn BackendObserver>>,
    j: int,
    session: Seq<char>,
    action: Action,
    outcome: Result<Seq<char>, Seq<char>>,
) -> bool {
    before[j].may_do_for(session, action, outcome)
}

/// The observers `before` may be these backends, as many as there are ids.
pub open spec fn may_be_all(before: Seq<Box<dyn BackendObserver>>, ids: Seq<BackendId>) -> bool {
    &&& ids.len() <= before.len()
    &&& forall|j: int| 0 <= j < ids.len() ==> before[j].may_be(#[trigger] ids[j])
}

/// The observers were asked for their ids one after the other, up to the first
/// of `backend`. That one, and no other, was handed the action with the
/// session's id, and what it made of it is the reply. Without an observer of
/// that backend, none was handed anything.
pub open spec fn handed_over(
    before: Seq<Box<dyn BackendObserver>>,
    after: Seq<Box<dyn BackendObserver>>,
    ids: Seq<BackendId>,
    backend: BackendId,
    session: Seq<char>,
    action: Action,
    reply: Seq<char>,
) -> bool {
    &&& may_be_all(before, ids)
    &&& if ids.contains(backend) {
        &&& ids.last() == backend
        &&& !ids.drop_last().contains(backend)
        &&& answered_by(before, ids.len() - 1, session, action, reply)
        &&& unchanged_but(before, after, ids.len() - 1)
    } else {
        &&& ids.len() == before.len()
        &&& reply == "unsupported:"@ + action.tag() + ":no_observer"@
        &&& after == before
    }
}

/// The reply is what observer `k` may make of the action on this session.
pub open spec fn answered_by(
    before: Seq<Box<dyn BackendObserver>>,
    k: int,
    session: Seq<char>,
    action: Action,
    reply: Seq<char>,
) -> bool {
    exists|o: Result<Seq<char>, Seq<char>>| #[trigger]
        may_make_for(before, k, session, action, o) && reply == outcome_status(action.tag(), o)
}

/// All observers but observer `k` are as they were.
pub open spec fn unchanged_but(
    before: Seq<Box<dyn BackendObserver>>,
    after: Seq<Box<dyn BackendObserver>>,
    k: int,
) -> bool {
    &&& after.len() == before.len()
    &&& forall|j: int| 0 <= j < before.len() && j != k ==> #[trigger] after[j] == before[j]
}

/// The observers `before` became `after` and this was the reply when an action
/// on a session went to `backend`.
pub open spec fn delivered(
    before: Seq<Box<dyn BackendObserver>>,
    after: Seq<Box<dyn BackendObserver>>,
    backend: BackendId,
    session: Seq<char>,
    action: Action,
    reply: Seq<char>,
) -> bool {
    exists|ids: Seq<BackendId>| #[trigger]
        handed_over(before, after, ids, backend, session, action, reply)
}

/// The observers may make these of an action that all of them are handed.
pub open spec fn may_make_all(
    before: Seq<Box<dyn BackendObserver>>,
    action: Action,
    outcomes: Seq<Result<Seq<char>, Seq<char>>>,
) -> bool {
    &&& outcomes.len() <= before.len()
    &&& forall|j: int|
        0 <= j < outcomes.len() ==> may_make(before, j, action, #[trigger] outcomes[j])
}

/// The observers `before` became `after` and this was the reply to an action:
/// the status that its route gives, with no observer asked, or what the
/// backends made of it.
pub open spec fn replied(
    b: BoardView,
    before: Seq<Box<dyn BackendObserver>>,
    after: Seq<Box<dyn BackendObserver>>,
    action: Action,
    reply: Seq<char>,
) -> bool {
    match routed(b, action) {
        RouteView::Status(s) => reply == s && after == before,
        RouteView::Broadcast => exists|o: Seq<Result<Seq<char>, Seq<char>>>| #[trigger]
            may_make_all(before, action, o) && o.len() == before.len() && reply
                == broadcast_status(o),
        RouteView::Backend(backend, session) => delivered(
            before,
            after,
            backend,
            session,
            action,
            reply,
        ),
    }
}

/// The observers, asked for their catalogs one after the other, may give these
/// answers.
pub open spec fn may_answer(
    before: Seq<Box<dyn BackendObserver>>,
    replies: Seq<Result<Seq<SnapshotView>, Seq<char>>>,
) -> bool {
    &&& replies.len() <= before.len()
    &&& forall|j: int|
        0 <= j < replies.len() ==> before[j].may_list(#[trigger] replies[j])
}

/// The catalogs among the answers, in their order: those of the backends that
/// could give one.
pub open spec fn given(replies: Seq<Result<Seq<SnapshotView>, Seq<char>>>) -> Seq<
    Seq<SnapshotView>,
>
    decreases replies.len(),
{
    if replies.len() == 0 {
        Seq::empty()
    } else {
        match replies.last() {
            Ok(c) => given(replies.drop_last()).push(c),
            Err(_) => given(replies.drop_last()),
        }
    }
}

/// Picker rows of these may be the answer of the observers: each was asked for
/// its catalog, whether or not one before it failed, and the rows are those of
/// the catalogs that were given.
pub open spec fn may_catalog(
    before: Seq<Box<dyn BackendObserver>>,
    rows: Seq<InfoView>,
) -> bool {
    exists|replies: Seq<Result<Seq<SnapshotView>, Seq<char>>>| #[trigger]
        may_answer(before, replies) && replies.len() == before.len() && rows == merged(
            given(replies),
        )
}

/// The observers may have been asked for this session, one after the other, with
/// this result: the first catalog that lists it is the last one asked for, and
/// without one all were. One that fails is passed over. Those that were not asked
/// are as they were.
pub open spec fn may_find(
    before: Seq<Box<dyn BackendObserver>>,
    after: Seq<Box<dyn BackendObserver>>,
    id: Seq<char>,
    found: Option<SnapshotView>,
) -> bool {
    exists|replies: Seq<Result<Seq<SnapshotView>, Seq<char>>>| #[trigger]
        may_answer(before, replies) && (forall|j: int|
            replies.len() <= j < before.len() ==> #[trigger] after[j] == before[j]) && (
        match found {
            Some(s) => replies.len() > 0 && none_lists(replies.drop_last(), id) && found_in(
                replies.last(),
                id,
            ) == Some(s),
            None => replies.len() == before.len() && none_lists(replies, id),
        })
}

/// Observer `j` may answer so for these pinned sessions.
pub open spec fn may_follow(
    before: Seq<Box<dyn BackendObserver>>,
    j: int,
    ids: Seq<Seq<char>>,
    reply: Result<Seq<SnapshotView>, Seq<char>>,
) -> bool {
    before[j].may_pin(ids, reply)
}

/// These are the same observers in the same order, whatever their state.
pub open spec fn same_observers(
    before: Seq<Box<dyn BackendObserver>>,
    after: Seq<Box<dyn BackendObserver>>,
) -> bool {
    &&& after.len() == before.len()
    &&& forall|k: int|
        0 <= k < before.len() ==> (#[trigger] after[k]).identity() == before[k].identity()
}

/// The same observers, of which those behind observer `j` were not asked yet.
pub open spec fn asked_up_to(
    before: Seq<Box<dyn BackendObserver>>,
    after: Seq<Box<dyn BackendObserver>>,
    j: int,
) -> bool {
    &&& same_observers(before, after)
    &&& forall|k: int| j < k < before.len() ==> #[trigger] after[k] == before[k]
}

/// Observer `j`, in the state of `before` at first and in that of `polled` once
/// it had been polled, may have answered so: `None` stands for a poll that
/// failed, after which it is not asked for the pinned sessions; after one that
/// did not it is, if there are any.
pub open spec fn may_give(
    before: Seq<Box<dyn BackendObserver>>,
    polled: Seq<Box<dyn BackendObserver>>,
    j: int,
    ids: Seq<Seq<char>>,
    a: Answer,
) -> bool {
    &&& before[j].may_be(a.id)
    &&& asked_up_to(before, polled, j)
    &&& match a.polled {
        Some(s) => {
            &&& before[j].may_poll(Ok(s))
            &&& match a.pinned {
                Some(p) => ids.len() > 0 && may_follow(polled, j, ids, Ok(p)),
                None => ids.len() == 0 || exists|e: Seq<char>| #[trigger]
                    may_follow(polled, j, ids, Err(e)),
            }
        },
        None => a.pinned is None && exists|e: Seq<char>| #[trigger] before[j].may_poll(Err(e)),
    }
}

/// The observers, asked one after the other, may have given these answers; each
/// is handed the pinned ids, and `polled[j]` are the observers as they are once
/// observer `j` was polled.
pub open spec fn may_give_all(
    before: Seq<Box<dyn BackendObserver>>,
    polled: Seq<Seq<Box<dyn BackendObserver>>>,
    ids: Seq<Seq<char>>,
    a: Seq<Answer>,
) -> bool {
    &&& a.len() <= before.len()
    &&& polled.len() == a.len()
    &&& forall|j: int|
        0 <= j < a.len() ==> may_give(before, polled[j], j, ids, #[trigger] a[j])
}

/// The observers may have answered so, each polled and asked for all pinned
/// sessions.
pub open spec fn may_tick(
    before: Seq<Box<dyn BackendObserver>>,
    pins: Map<usize, Seq<char>>,
    a: Seq<Answer>,
) -> bool {
    &&& a.len() == before.len()
    &&& exists|polled: Seq<Seq<Box<dyn BackendObserver>>>, ids: Seq<Seq<char>>| #[trigger]
        may_give_all(before, polled, ids, a) && (forall|id: Seq<char>|
            session_board::pinned_session(pins, id) <==> #[trigger] ids.contains(id))
}

/// The content of a `HostCore`, without its observers.
#[verifier::ext_equal]
pub struct HostView {
    pub board: BoardView,
    pub fade: FadeView,
}

impl HostView {
    /// The host with the board refreshed.
    pub open spec fn refreshed(self, now: u64) -> HostView {
        HostView { board: self.board.refreshed(now), ..self }
    }

    /// The host with the focus on key `i`, if there is one.
    pub open spec fn focused(self, i: usize, now: u64) -> HostView {
        let b = if i < self.board.slot_count {
            BoardView { focus: i as int, ..self.board }
        } else {
            self.board
        };
        HostView { board: b.refreshed(now), ..self }
    }

    /// The host with key `i` pinned or unpinned, if there is one.
    pub open spec fn pinned(self, i: usize, id: Option<Seq<char>>, now: u64) -> HostView {
        if i < self.board.slot_count {
            let b = BoardView {
                pins: match id {
                    Some(x) => self.board.pins.insert(i, x),
                    None => self.board.pins.remove(i),
                },
                ..self.board
            };
            HostView { board: b.refreshed(now), ..self }
        } else {
            self
        }
    }

    /// The host with these pins.
    pub open spec fn repinned(self, pins: Map<usize, Seq<char>>, now: u64) -> HostView {
        HostView { board: (BoardView { pins, ..self.board }).refreshed(now), ..self }
    }

    /// The host with the filling of free keys on or off.
    pub open spec fn filling(self, enabled: bool, now: u64) -> HostView {
        HostView {
            board: (BoardView { auto_fill: enabled, ..self.board }).refreshed(now),
            ..self
        }
    }

    /// The host with an opening remembered.
    pub open spec fn opened(self, backend: BackendId, id: Seq<char>, now: u64) -> HostView {
        HostView {
            fade: FadeView {
                opened: self.fade.opened.insert(open_key(backend, id), now),
                ..self.fade
            },
            ..self
        }
    }

    /// The host with a session of the catalog on the board, as it is by now.
    pub open spec fn recalled(self, found: SnapshotView, now: u64) -> HostView {
        let s = self.fade.fade(found, now);
        HostView {
            board: (BoardView {
                entries: session_board::upsert(
                    self.board.entries,
                    session_board::EntryView { owner: s.backend, snapshot: s },
                ),
                ..self.board
            }).refreshed(now),
            ..self
        }
    }
}

/// The host core.
pub struct HostCore {
    pub board: SessionBoard,
    observers: Vec<Box<dyn BackendObserver>>,
    /// When sessions were opened from the deck. Not kept across restarts.
    opened_at: TextMap<u64>,
    done_ttl_after_open_ms: u64,
    done_ttl_unopened_ms: u64,
}

impl View for HostCore {
    type V = HostView;

    closed spec fn view(&self) -> HostView {
        HostView {
            board: self.board@,
            fade: FadeView {
                opened: self.opened_at@,
                after_open_ms: self.done_ttl_after_open_ms,
                unopened_ms: self.done_ttl_unopened_ms,
            },
        }
    }
}

impl HostCore {
    /// The board is well formed.
    pub closed spec fn wf(&self) -> bool {
        self.board.wf()
    }

    /// The observers, as they are now.
    pub closed spec fn observed(&self) -> Seq<Box<dyn BackendObserver>> {
        self.observers@
    }

    /// A host with these observers and an empty board of `slot_count` keys.
    pub fn with_observers(slot_count: usize, observers: Vec<Box<dyn BackendObserver>>) -> (r:
        HostCore)
        ensures
            r.wf(),
            r.observed() == observers@,
            r@ == (HostView {
                board: BoardView {
                    slot_count: slot_count as int,
                    entries: Seq::empty(),
                    focus: 0,
                    pins: Map::empty(),
                    auto_fill: true,
                    mode: protocol::PolicyMode::Act,
                    led: None,
                    board: None,
                },
                fade: FadeView {
                    opened: Map::empty(),
                    after_open_ms: DONE_TTL_MS,
                    unopened_ms: DONE_TTL_UNOPENED_MS,
                },
            }),
    {
        HostCore {
            board: SessionBoard::new(slot_count),
            observers,
            opened_at: TextMap::new(),
            done_ttl_after_open_ms: DONE_TTL_MS,
            done_ttl_unopened_ms: DONE_TTL_UNOPENED_MS,
        }
    }

    /// Sets how long Done stays; takes effect with the next tick.
    pub fn set_done_ttl(&mut self, after_open_ms: u64, unopened_ms: u64)
        requires
            old(self).wf(),
        ensures
            final(self).wf(),
            final(self).observed() == old(self).observed(),
            final(self)@ == (HostView {
                fade: FadeView { after_open_ms, unopened_ms, ..old(self)@.fade },
                ..old(self)@
            }),
    {
        self.done_ttl_after_open_ms = after_open_ms;
        self.done_ttl_unopened_ms = unopened_ms;
    }

    /// Remembers that the user opened a session now.
    pub fn mark_opened(&mut self, backend: BackendId, session_id: &str)
        requires
            old(self).wf(),
        ensures
            final(self).wf(),
            final(self).observed() == old(self).observed(),
            exists|now: u64| final(self)@ == #[trigger] old(self)@.opened(backend, session_id@, now),
    {
        let now: u64 = now_ms();
        self.mark_opened_at(backend, session_id, now);
    }

    /// Remembers that the user opened a session at `now`.
    pub fn mark_opened_at(&mut self, backend: BackendId, session_id: &str, now: u64)
        requires
            old(self).wf(),
        ensures
            final(self).wf(),
            final(self).observed() == old(self).observed(),
            final(self)@ == old(self)@.opened(backend, session_id@, now),
    {
        let key = opened_key(backend, session_id);
        self.opened_at.insert(key, now);
    }

    /// Takes over the sessions that a backend reports.
    pub fn absorb_report(&mut self, backend: BackendId, snaps: Vec<SessionSnapshot>, now: u64)
        requires
            old(self).wf(),
        ensures
            final(self).wf(),
            final(self).observed() == old(self).observed(),
            final(self)@ == (HostView {
                board: with_report(
                    old(self)@.board,
                    old(self)@.fade,
                    backend,
                    protocol::snapshots(snaps@),
                    now,
                ),
                ..old(self)@
            }),
    {
        let snaps = apply_done_decay(
            snaps,
            &self.opened_at,
            now,
            self.done_ttl_after_open_ms,
            self.done_ttl_unopened_ms,
        );
        self.board.replace_backend_sessions(backend, snaps, now);
    }

    /// Takes over the latest state of pinned sessions.
    pub fn absorb_pinned(&mut self, snaps: Vec<SessionSnapshot>, now: u64)
        requires
            old(self).wf(),
        ensures
            final(self).wf(),
            final(self).observed() == old(self).observed(),
            final(self)@ == (HostView {
                board: with_pinned(
                    old(self)@.board,
                    old(self)@.fade,
                    protocol::snapshots(snaps@),
                    now,
                ),
                ..old(self)@
            }),
    {
        let snaps = apply_done_decay(
            snaps,
            &self.opened_at,
            now,
            self.done_ttl_after_open_ms,
            self.done_ttl_unopened_ms,
        );
        self.board.upsert_sessions(snaps, now);
    }

    /// Asks all backends, one after the other, for what is to show, and for the
    /// pinned sessions if there are any and the backend answered at all.
    fn ask(&mut self) -> (r: Vec<BackendAnswer>)
        requires
            old(self).wf(),
        ensures
            final(self).wf(),
            same_observers(old(self).observed(), final(self).observed()),
            final(self)@ == old(self)@,
            may_tick(old(self).observed(), old(self)@.board.pins, answer_views(r@)),
    {
        let pinned_ids = self.board.pinned_ids();
        let ghost ids = text::texts(pinned_ids@);
        let mut answers: Vec<BackendAnswer> = Vec::new();
        let ghost mut polled: Seq<Seq<Box<dyn BackendObserver>>> = Seq::empty();
        let n: usize = self.observers.len();
        let mut i: usize = 0;
        while i < n
            invariant
                i <= n,
                n == self.observers@.len(),
                answers@.len() == i,
                self.wf(),
                self@ == old(self)@,
                same_observers(old(self).observed(), self.observed()),
                ids == text::texts(pinned_ids@),
                may_give_all(old(self).observed(), polled, ids, answer_views(answers@)),
                forall|j: int|
                    i <= j < n ==> #[trigger] self.observers@[j] == old(self).observers@[j],
            decreases n - i,
        {
            let ghost had = answer_views(answers@);
            let ghost states = polled;
            let id = self.observers[i].id();
            let reply = self.observers[i].poll();
            proof {
                polled = states.push(self.observers@);
            }
            let answer = match reply {
                Ok(snaps) => {
                    let mut pinned: Option<Vec<SessionSnapshot>> = None;
                    if pinned_ids.len() > 0 {
                        match self.observers[i].poll_pinned(pinned_ids.as_slice()) {
                            Ok(more) => {
                                assert(may_follow(
                                    polled[i as int],
                                    i as int,
                                    ids,
                                    Ok(protocol::snapshots(more@)),
                                ));
                                pinned = Some(more);
                            },
                            Err(e) => {
                                assert(may_follow(
                                    polled[i as int],
                                    i as int,
                                    ids,
                                    Err(e.message@),
                                ));
                            },
                        }
                    }
                    BackendAnswer { id, polled: Some(snaps), pinned }
                },
                Err(e) => {
                    assert(old(self).observed()[i as int].may_poll(Err(e.message@)));
                    BackendAnswer { id, polled: None, pinned: None }
                },
            };
            assert(may_give(old(self).observed(), polled[i as int], i as int, ids, answer@));
            answers.push(answer);
            assert(answer_views(answers@) == had.push(answer@));
            i = i + 1;
        }
        proof {
            let pins = old(self)@.board.pins;
            assert forall|id: Seq<char>|
                session_board::pinned_session(pins, id) <==> #[trigger] ids.contains(id) by {
                if session_board::pinned_session(pins, id) {
                    let j = choose|j: int|
                        0 <= j < pinned_ids@.len() && (#[trigger] pinned_ids@[j])@ == id;
                    assert(ids[j] == id);
                }
                if ids.contains(id) {
                    let j = choose|j: int| 0 <= j < ids.len() && ids[j] == id;
                    assert(pinned_ids@[j]@ == id);
                }
            }
        }
        answers
    }

    /// Brings the board up to date with what the backends answered, one after
    /// the other. A backend that failed leaves the board as it is.
    pub fn take_answers(&mut self, answers: &Vec<BackendAnswer>, now: u64)
        requires
            old(self).wf(),
        ensures
            final(self).wf(),
            final(self).observed() == old(self).observed(),
            final(self)@ == (HostView {
                board: all_answered(
                    old(self)@.board,
                    old(self)@.fade,
                    answer_views(answers@),
                    now,
                ),
                ..old(self)@
            }),
    {
        let ghost views = answer_views(answers@);
        let mut i: usize = 0;
        assert(views.take(0) == Seq::<Answer>::empty());
        while i < answers.len()
            invariant
                i <= answers@.len(),
                views == answer_views(answers@),
                self.wf(),
                self.observed() == old(self).observed(),
                self@ == (HostView {
                    board: all_answered(
                        old(self)@.board,
                        old(self)@.fade,
                        views.take(i as int),
                        now,
                    ),
                    ..old(self)@
                }),
            decreases answers@.len() - i,
        {
            let a = &answers[i];
            assert(views.take(i + 1).drop_last() == views.take(i as int));
            assert(views.take(i + 1).last() == a@);
            if let Some(polled) = &a.polled {
                self.absorb_report(a.id, protocol::clone_snapshots(polled), now);
                if let Some(pinned) = &a.pinned {
                    self.absorb_pinned(protocol::clone_snapshots(pinned), now);
                }
            }
            i = i + 1;
        }
        assert(views.take(i as int) == views);
    }

    /// Asks all backends and brings the board up to date by the clock.
    pub fn tick(&mut self) -> (r: Result<(Option<LedFrame>, Option<BoardState>), BackendError>)
        requires
            old(self).wf(),
        ensures
            final(self).wf(),
            same_observers(old(self).observed(), final(self).observed()),
            r matches Ok(p) && frames_of(p) == (final(self)@.board.led, final(self)@.board.board),
            exists|a: Seq<Answer>, now: u64| #[trigger]
                all_answered(old(self)@.board, old(self)@.fade, a, now) == final(self)@.board
                    && may_tick(old(self).observed(), old(self)@.board.pins, a),
            final(self)@.fade == old(self)@.fade,
    {
        let now: u64 = now_ms();
        self.tick_at(now)
    }

    /// Asks all backends and brings the board up to date as of `now`. The board
    /// is what the answers make of it, one backend after the other; a backend
    /// that fails leaves it as it was and does not keep the others from
    /// answering. Pinned sessions are asked for only if there are any.
    pub fn tick_at(&mut self, now: u64) -> (r: Result<
        (Option<LedFrame>, Option<BoardState>),
        BackendError,
    >)
        requires
            old(self).wf(),
        ensures
            final(self).wf(),
            same_observers(old(self).observed(), final(self).observed()),
            r matches Ok(p) && frames_of(p) == (final(self)@.board.led, final(self)@.board.board),
            exists|a: Seq<Answer>| #[trigger]
                all_answered(old(self)@.board, old(self)@.fade, a, now) == final(self)@.board
                    && may_tick(old(self).observed(), old(self)@.board.pins, a),
            final(self)@.fade == old(self)@.fade,
    {
        let answers = self.ask();
        proof {
            let a = answer_views(answers@);
            assert(may_tick(old(self).observed(), old(self)@.board.pins, a));
        }
        self.take_answers(&answers, now);
        let led = match self.board.led_frame() {
            Some(f) => Some(f.clone()),
            None => None,
        };
        let state = match self.board.board_state() {
            Some(b) => Some(b.clone()),
            None => None,
        };
        Ok((led, state))
    }

    /// Brings the board up to date by the clock, without asking anyone.
    pub fn recompute_only(&mut self)
        requires
            old(self).wf(),
        ensures
            final(self).wf(),
            final(self).observed() == old(self).observed(),
            exists|now: u64| final(self)@ == #[trigger] old(self)@.refreshed(now),
    {
        let now: u64 = now_ms();
        self.recompute_at(now);
    }

    /// Brings the board up to date as of `now`, without asking anyone.
    pub fn recompute_at(&mut self, now: u64)
        requires
            old(self).wf(),
        ensures
            final(self).wf(),
            final(self).observed() == old(self).observed(),
            final(self)@ == old(self)@.refreshed(now),
    {
        self.board.recompute(now);
    }

    /// Moves the focus, by the clock.
    pub fn set_focus(&mut self, i: usize)
        requires
            old(self).wf(),
        ensures
            final(self).wf(),
            final(self).observed() == old(self).observed(),
            exists|now: u64| final(self)@ == #[trigger] old(self)@.focused(i, now),
    {
        let now: u64 = now_ms();
        self.set_focus_at(i, now);
    }

    /// Moves the focus to key `i`, if there is one, and refreshes the board.
    pub fn set_focus_at(&mut self, i: usize, now: u64)
        requires
            old(self).wf(),
        ensures
            final(self).wf(),
            final(self).observed() == old(self).observed(),
            final(self)@ == old(self)@.focused(i, now),
    {
        self.board.set_focus(i);
        self.board.recompute(now);
    }

    /// Pins a session to key `i`, or unpins it, by the clock.
    pub fn set_pin(&mut self, i: usize, session_id: Option<String>)
        requires
            old(self).wf(),
        ensures
            final(self).wf(),
            final(self).observed() == old(self).observed(),
            exists|now: u64|
                final(self)@ == #[trigger] old(self)@.pinned(i, text::opt(session_id), now),
    {
        let now: u64 = now_ms();
        self.board.set_pin(i, session_id, now);
        assert(self@ == old(self)@.pinned(i, text::opt(session_id), now));
    }

    /// The pins: key number to session id.
    pub fn pins(&self) -> (r: &HashMap<usize, String>)
        ensures
            slot_allocator::pin_ids(r@) == self@.board.pins,
    {
        self.board.pins()
    }

    /// Replaces all pins, by the clock.
    pub fn set_pins(&mut self, pins: HashMap<usize, String>)
        requires
            old(self).wf(),
        ensures
            final(self).wf(),
            final(self).observed() == old(self).observed(),
            exists|now: u64|
                final(self)@ == #[trigger] old(self)@.repinned(
                    slot_allocator::pin_ids(pins@),
                    now,
                ),
    {
        let now: u64 = now_ms();
        self.board.set_pins(pins, now);
        assert(self@ == old(self)@.repinned(slot_allocator::pin_ids(pins@), now));
    }

    /// Turns the filling of free keys on or off, by the clock.
    pub fn set_auto_fill(&mut self, enabled: bool)
        requires
            old(self).wf(),
        ensures
            final(self).wf(),
            final(self).observed() == old(self).observed(),
            exists|now: u64| final(self)@ == #[trigger] old(self)@.filling(enabled, now),
    {
        let now: u64 = now_ms();
        self.board.set_auto_fill(enabled, now);
        assert(self@ == old(self)@.filling(enabled, now));
    }

    /// Whether free keys are filled.
    pub fn auto_fill(&self) -> (r: bool)
        ensures
            r == self@.board.auto_fill,
    {
        self.board.auto_fill()
    }

    /// Picker rows of the sessions on the board's list.
    pub fn list_sessions(&self) -> (r: Vec<SessionInfo>)
        ensures
            infos(r@) == ordering::ranked(
                self@.board.entries.map_values(|e: session_board::EntryView| e.snapshot),
                |s: SnapshotView| session_board::list_rank(s),
            ).map_values(|s: SnapshotView| info_of(s)),
    {
        let all = self.board.list_sessions();
        let mut out: Vec<SessionInfo> = Vec::new();
        let mut i: usize = 0;
        while i < all.len()
            invariant
                i <= all@.len(),
                out@.len() == i,
                forall|j: int| 0 <= j < i ==> (#[trigger] out@[j])@ == info_of(all@[j]@),
            decreases all@.len() - i,
        {
            out.push(info(&all[i]));
            i = i + 1;
        }
        assert(infos(out@) =~= protocol::snapshots(all@).map_values(|s: SnapshotView| info_of(s)));
        out
    }

    /// Picker rows of all sessions of all backends: each is asked for its
    /// catalog, and one that fails is passed over.
    pub fn list_catalog(&mut self) -> (r: Vec<SessionInfo>)
        requires
            old(self).wf(),
        ensures
            final(self).wf(),
            same_observers(old(self).observed(), final(self).observed()),
            final(self)@ == old(self)@,
            may_catalog(old(self).observed(), infos(r@)),
    {
        let mut catalogs: Vec<Vec<SessionSnapshot>> = Vec::new();
        let ghost mut replies: Seq<Result<Seq<SnapshotView>, Seq<char>>> = Seq::empty();
        let n: usize = self.observers.len();
        let mut i: usize = 0;
        assert(catalog_views(catalogs@) == given(replies));
        while i < n
            invariant
                i <= n,
                n == self.observers@.len(),
                catalogs@.len() <= i,
                self.wf(),
                self@ == old(self)@,
                same_observers(old(self).observed(), self.observed()),
                replies.len() == i,
                may_answer(old(self).observed(), replies),
                catalog_views(catalogs@) == given(replies),
                forall|j: int|
                    i <= j < n ==> #[trigger] self.observers@[j] == old(self).observers@[j],
            decreases n - i,
        {
            let ghost had = replies;
            let ghost views = catalog_views(catalogs@);
            let reply = self.observers[i].list_catalog();
            proof {
                replies = had.push(reply_view(reply));
            }
            assert(may_answer(old(self).observed(), replies));
            assert(replies.drop_last() == had);
            match reply {
                Ok(snaps) => {
                    catalogs.push(snaps);
                    assert(catalog_views(catalogs@) == views.push(protocol::snapshots(snaps@)));
                },
                Err(_) => {},
            }
            i = i + 1;
        }
        let r = merge_catalogs(&catalogs);
        assert(may_catalog(old(self).observed(), infos(r@)));
        r
    }

    /// The first session with this id in the catalogs, asked one after the
    /// other. The first catalog that lists the session is the last one that is
    /// asked for; without one, all of them are. One that fails is passed over.
    fn find_in_catalogs(&mut self, id: &str) -> (r: Option<SessionSnapshot>)
        requires
            old(self).wf(),
        ensures
            final(self).wf(),
            same_observers(old(self).observed(), final(self).observed()),
            final(self)@ == old(self)@,
            r matches Some(s) ==> s.session_id@ == id@,
            may_find(old(self).observed(), final(self).observed(), id@, opt_snapshot(r)),
    {
        let ghost mut replies: Seq<Result<Seq<SnapshotView>, Seq<char>>> = Seq::empty();
        let n: usize = self.observers.len();
        let mut i: usize = 0;
        while i < n
            invariant
                i <= n,
                n == self.observers@.len(),
                self.wf(),
                self@ == old(self)@,
                same_observers(old(self).observed(), self.observed()),
                replies.len() == i,
                may_answer(old(self).observed(), replies),
                none_lists(replies, id@),
                forall|j: int|
                    i <= j < n ==> #[trigger] self.observers@[j] == old(self).observers@[j],
            decreases n - i,
        {
            let ghost had = replies;
            let reply = self.observers[i].list_catalog();
            proof {
                replies = had.push(reply_view(reply));
            }
            assert(may_answer(old(self).observed(), replies));
            assert(replies.drop_last() == had);
            if let Ok(snaps) = reply {
                if let Some(s) = first_match(&snaps, id) {
                    assert(may_find(old(self).observed(), self.observed(), id@, Some(s@)));
                    return Some(s);
                }
            }
            i = i + 1;
        }
        None
    }

    /// Puts a session found in a catalog on the board, as it is by now.
    pub fn recall(&mut self, found: SessionSnapshot, now: u64)
        requires
            old(self).wf(),
        ensures
            final(self).wf(),
            final(self).observed() == old(self).observed(),
            final(self)@ == old(self)@.recalled(found@, now),
    {
        let mut snap = found;
        let key = opened_key(snap.backend, snap.session_id.as_str());
        let opened: Option<u64> = match self.opened_at.get(key.as_str()) {
            Some(t) => Some(*t),
            None => None,
        };
        let next = decay_done_status(
            &snap,
            opened,
            now,
            self.done_ttl_after_open_ms,
            self.done_ttl_unopened_ms,
        );
        snap.status = next;
        self.board.upsert_session(snap, now);
        assert(self@ == old(self)@.recalled(found@, now));
    }

    /// Pins a session to key `i`, or unpins the key. A session that the board
    /// does not know is first looked for in the catalogs of the backends.
    pub fn pin_session_from_catalog(&mut self, i: usize, session_id: Option<String>)
        requires
            old(self).wf(),
        ensures
            final(self).wf(),
            same_observers(old(self).observed(), final(self).observed()),
            exists|found: Option<SnapshotView>, t: u64, now: u64| #[trigger]
                bound(old(self)@, i, text::opt(session_id), found, t, now) == final(self)@
                    && looked_up(
                    old(self)@.board,
                    old(self).observed(),
                    final(self).observed(),
                    text::opt(session_id),
                    found,
                ),
    {
        let ghost before = self.observed();
        match session_id {
            None => {
                self.set_pin(i, None);
                proof {
                    let now = choose|now: u64|
                        self@ == #[trigger] old(self)@.pinned(i, None, now);
                    assert(bound(old(self)@, i, None, None, 0, now) == self@);
                }
            },
            Some(id) => {
                let ghost mut found: Option<SnapshotView> = None;
                let ghost mut t: u64 = 0;
                let ghost asked = session_board::first_with_id(self@.board.entries, id@) is None;
                if self.board.find_session(id.as_str()).is_none() {
                    let hit = self.find_in_catalogs(id.as_str());
                    if let Some(snap) = hit {
                        let now: u64 = now_ms();
                        proof {
                            found = Some(snap@);
                            t = now;
                        }
                        self.recall(snap, now);
                    }
                }
                let ghost mid = self@;
                let ghost idv = id@;
                self.set_pin(i, Some(id));
                proof {
                    let now = choose|now: u64|
                        self@ == #[trigger] mid.pinned(i, Some(idv), now);
                    assert(asked ==> may_find(before, self.observed(), idv, found));
                    assert(bound(old(self)@, i, Some(idv), found, t, now) == self@);
                }
            },
        }
    }

    /// The latest board state.
    pub fn board_state(&self) -> (r: Option<&BoardState>)
        ensures
            (match r {
                Some(b) => Some(b@),
                None => None,
            }) == self@.board.board,
    {
        self.board.board_state()
    }

    /// The latest LED frame.
    pub fn led_frame(&self) -> (r: Option<&LedFrame>)
        ensures
            (match r {
                Some(f) => Some(f@),
                None => None,
            }) == self@.board.led,
    {
        self.board.led_frame()
    }

    /// Whether no key shows a session.
    pub fn is_empty_board(&self) -> (r: bool)
        ensures
            r == (self@.board.board matches Some(b) ==> forall|i: int|
                0 <= i < b.slots.len() ==> (#[trigger] b.slots[i]).session_id is None),
    {
        match self.board.board_state() {
            None => true,
            Some(b) => {
                let ghost slots = b@.slots;
                let mut i: usize = 0;
                while i < b.slots.len()
                    invariant
                        i <= b.slots@.len(),
                        slots == b@.slots,
                        self@.board.board == Some(b@),
                        forall|j: int| 0 <= j < i ==> (#[trigger] slots[j]).session_id is None,
                    decreases b.slots@.len() - i,
                {
                    assert(slots[i as int] == b.slots@[i as int]@);
                    if b.slots[i].session_id.is_some() {
                        assert(slots[i as int].session_id is Some);
                        return false;
                    }
                    i = i + 1;
                }
                true
            },
        }
    }

    /// Where a key action goes.
    pub fn route(&self, action: &Action) -> (r: ActionRoute)
        ensures
            r@ == routed(self@.board, *action),
    {
        let tag = action.op_tag();
        let named: Option<usize> = match action {
            Action::StopAll => {
                return ActionRoute::Broadcast;
            },
            Action::Accept { i } => *i,
            Action::Reject { i } => *i,
            Action::Stop { i } => *i,
            Action::Send { i, .. } => *i,
            _ => {
                return ActionRoute::Status(status2("unsupported:", tag));
            },
        };
        let slot_i: usize = match named {
            Some(i) => i,
            None => self.board.focus(),
        };
        match self.board.board_state() {
            None => ActionRoute::Status(status3("unsupported:", tag, ":no_board")),
            Some(board) => {
                if slot_i >= board.slots.len() {
                    return ActionRoute::Status(status3("unsupported:", tag, ":bad_slot"));
                }
                let binding = &board.slots[slot_i];
                assert(board@.slots[slot_i as int] == binding@);
                match (binding.backend, &binding.session_id) {
                    (Some(backend), Some(id)) => ActionRoute::Backend(
                        backend,
                        id.clone(),
                    ),
                    _ => ActionRoute::Status(status3("unsupported:", tag, ":empty_slot")),
                }
            },
        }
    }

    /// Performs a key action and answers with a status text. An action that goes
    /// to a backend is handed to that backend alone and answered by it, or refused
    /// if it is not observed.
    pub fn dispatch_action(&mut self, action: &Action) -> (r: String)
        requires
            old(self).wf(),
        ensures
            final(self).wf(),
            same_observers(old(self).observed(), final(self).observed()),
            final(self)@ == old(self)@,
            replied(old(self)@.board, old(self).observed(), final(self).observed(), *action, r@),
    {
        let tag = action.op_tag();
        match self.route(action) {
            ActionRoute::Status(s) => s,
            ActionRoute::Broadcast => {
                let mut last = "ok:stop_all:noop".to_string();
                let ghost mut outcomes: Seq<Result<Seq<char>, Seq<char>>> = Seq::empty();
                let n: usize = self.observers.len();
                let mut i: usize = 0;
                while i < n
                    invariant
                        i <= n,
                        n == self.observers@.len(),
                        outcomes.len() == i,
                        last@ == broadcast_status(outcomes),
                        self.wf(),
                        self@ == old(self)@,
                        same_observers(old(self).observed(), self.observed()),
                        may_make_all(old(self).observed(), *action, outcomes),
                        forall|j: int|
                            i <= j < n ==> #[trigger] self.observers@[j] == old(
                                self,
                            ).observers@[j],
                    decreases n - i,
                {
                    let outcome = self.observers[i].dispatch(action);
                    proof {
                        outcomes = outcomes.push(outcome_view(outcome));
                    }
                    last = dispatch_status("stop_all", outcome);
                    i = i + 1;
                }
                last
            },
            ActionRoute::Backend(backend, session_id) => {
                let ghost mut ids: Seq<BackendId> = Seq::empty();
                let n: usize = self.observers.len();
                let mut i: usize = 0;
                while i < n
                    invariant
                        i <= n,
                        n == self.observers@.len(),
                        self.wf(),
                        *self == *old(self),
                        ids.len() == i,
                        may_be_all(self.observed(), ids),
                        !ids.contains(backend),
                        routed(old(self)@.board, *action) == RouteView::Backend(
                            backend,
                            session_id@,
                        ),
                        tag@ == action.tag(),
                    decreases n - i,
                {
                    let id = self.observers[i].id();
                    let ghost had = ids;
                    proof {
                        ids = had.push(id);
                    }
                    assert(may_be_all(self.observed(), ids));
                    if id == backend {
                        let outcome = self.observers[i].dispatch_for(action, session_id.as_str());
                        let ghost o = outcome_view(outcome);
                        let r = dispatch_status(tag, outcome);
                        proof {
                            assert(ids.last() == backend);
                            assert(ids.contains(backend));
                            assert(ids.drop_last() == had);
                            assert(may_make_for(
                                old(self).observed(),
                                i as int,
                                session_id@,
                                *action,
                                o,
                            ));
                            assert(handed_over(
                                old(self).observed(),
                                self.observed(),
                                ids,
                                backend,
                                session_id@,
                                *action,
                                r@,
                            ));
                        }
                        return r;
                    }
                    assert(!ids.contains(backend)) by {
                        assert forall|j: int| 0 <= j < ids.len() implies ids[j] != backend by {
                            if j < i {
                                assert(had.contains(had[j]));
                            }
                        }
                    }
                    i = i + 1;
                }
                let r = status3("unsupported:", tag, ":no_observer");
                assert(handed_over(
                    old(self).observed(),
                    self.observed(),
                    ids,
                    backend,
                    session_id@,
                    *action,
                    r@,
                ));
                r
            },
        }
    }
}

/// The contents of a pair of frames.
pub open spec fn frames_of(p: (Option<LedFrame>, Option<BoardState>)) -> (
    Option<LedFrameView>,
    Option<BoardStateView>,
) {
    (
        match p.0 {
            Some(f) => Some(f@),
            None => None,
        },
        match p.1 {
            Some(b) => Some(b@),
            None => None,
        },
    )
}

/// The content of an optional session.
pub open spec fn opt_snapshot(s: Option<SessionSnapshot>) -> Option<SnapshotView> {
    match s {
        Some(x) => Some(x@),
        None => None,
    }
}

/// What a session to bind was found to be: the catalogs were asked for one that
/// the board does not know, and no observer was asked for another.
pub open spec fn looked_up(
    b: BoardView,
    before: Seq<Box<dyn BackendObserver>>,
    after: Seq<Box<dyn BackendObserver>>,
    id: Option<Seq<char>>,
    found: Option<SnapshotView>,
) -> bool {
    match id {
        Some(x) => if session_board::first_with_id(b.entries, x) is None {
            may_find(before, after, x, found)
        } else {
            found is None && after == before
        },
        None => found is None && after == before,
    }
}

/// The host after binding key `i`: a session that the board does not know is
/// recalled at `t` if it was found, then the pin is set at `now`.
pub open spec fn bound(
    h: HostView,
    i: usize,
    id: Option<Seq<char>>,
    found: Option<SnapshotView>,
    t: u64,
    now: u64,
) -> HostView {
    let known = match (id, found) {
        (Some(x), Some(s)) => if session_board::first_with_id(h.board.entries, x) is None {
            h.recalled(s, t)
        } else {
            h
        },
        _ => h,
    };
    known.pinned(i, id, now)
}

/// The first session with this id in a catalog.
pub open spec fn first_in(s: Seq<SnapshotView>, id: Seq<char>) -> Option<SnapshotView>
    decreases s.len(),
{
    if s.len() == 0 {
        None
    } else {
        match first_in(s.drop_last(), id) {
            Some(x) => Some(x),
            None => if s.last().session_id == id {
                Some(s.last())
            } else {
                None
            },
        }
    }
}

/// The first session with this id in a backend's catalog, if the backend gave one.
pub open spec fn found_in(
    reply: Result<Seq<SnapshotView>, Seq<char>>,
    id: Seq<char>,
) -> Option<SnapshotView> {
    match reply {
        Ok(snaps) => first_in(snaps, id),
        Err(_) => None,
    }
}

/// None of these catalogs lists the session.
pub open spec fn none_lists(
    replies: Seq<Result<Seq<SnapshotView>, Seq<char>>>,
    id: Seq<char>,
) -> bool {
    forall|j: int| 0 <= j < replies.len() ==> found_in(#[trigger] replies[j], id) is None
}

proof fn lemma_first_in_prefix(s: Seq<SnapshotView>, id: Seq<char>, n: int)
    requires
        0 <= n <= s.len(),
        first_in(s.take(n), id) is Some,
    ensures
        first_in(s, id) == first_in(s.take(n), id),
    decreases s.len() - n,
{
    if n < s.len() {
        assert(s.take(n + 1).drop_last() == s.take(n));
        lemma_first_in_prefix(s, id, n + 1);
    } else {
        assert(s.take(n) == s);
    }
}

/// The first session with this id in a catalog.
pub fn first_match(snaps: &Vec<SessionSnapshot>, id: &str) -> (r: Option<SessionSnapshot>)
    ensures
        (match r {
            Some(s) => Some(s@),
            None => None,
        }) == first_in(protocol::snapshots(snaps@), id@),
        r matches Some(s) ==> s.session_id@ == id@,
{
    let ghost v = protocol::snapshots(snaps@);
    let mut i: usize = 0;
    while i < snaps.len()
        invariant
            i <= snaps@.len(),
            v == protocol::snapshots(snaps@),
            first_in(v.take(i as int), id@) is None,
        decreases snaps@.len() - i,
    {
        assert(v.take(i + 1).drop_last() == v.take(i as int));
        if text::same(snaps[i].session_id.as_str(), id) {
            proof {
                lemma_first_in_prefix(v, id@, i + 1);
            }
            return Some(snaps[i].clone());
        }
        i = i + 1;
    }
    assert(v.take(i as int) == v);
    None
}

/// Answers never move the focus, the pins, the mode or the size of the board.
pub proof fn lemma_answers_keep_settings(b: BoardView, fade: FadeView, a: Seq<Answer>, now: u64)
    ensures
        ({
            let r = all_answered(b, fade, a, now);
            &&& r.slot_count == b.slot_count
            &&& r.focus == b.focus
            &&& r.pins == b.pins
            &&& r.auto_fill == b.auto_fill
            &&& r.mode == b.mode
        }),
    decreases a.len(),
{
    if a.len() > 0 {
        lemma_answers_keep_settings(b, fade, a.drop_last(), now);
    }
}

/// As soon as one backend has answered, LEDs and board state are both there and
/// up to date.
pub proof fn lemma_answers_refresh_both_frames(
    b: BoardView,
    fade: FadeView,
    a: Seq<Answer>,
    now: u64,
    j: int,
)
    requires
        0 <= j < a.len(),
        a[j].polled is Some,
    ensures
        ({
            let r = all_answered(b, fade, a, now);
            r == r.refreshed(now)
        }),
    decreases a.len(),
{
    let before = all_answered(b, fade, a.drop_last(), now);
    if j < a.len() - 1 {
        lemma_answers_refresh_both_frames(b, fade, a.drop_last(), now, j);
    }
    let x = a.last();
    if x.polled is Some {
        session_board::lemma_refresh_is_idempotent(
            BoardView {
                entries: session_board::replaced(
                    before.entries,
                    x.id,
                    fade.fade_all(x.polled->0, now),
                    before.pins,
                ),
                ..before
            },
            now,
        );
    }
}

/// A backend that fails changes nothing: the board is as if it had not been asked.
pub proof fn lemma_failed_backend_is_skipped(
    b: BoardView,
    fade: FadeView,
    a: Seq<Answer>,
    now: u64,
    failed: Answer,
)
    requires
        failed.polled is None,
    ensures
        all_answered(b, fade, a.push(failed), now) == all_answered(b, fade, a, now),
{
    assert(a.push(failed).drop_last() == a);
}

/// What a backend reports leaves the sessions of the other backends alone.
pub proof fn lemma_report_leaves_other_backends(
    b: BoardView,
    fade: FadeView,
    answer: Answer,
    now: u64,
    o: BackendId,
    id: Seq<char>,
)
    requires
        session_board::distinct(b.entries),
        o != answer.id,
        answer.pinned matches Some(p) ==> forall|j: int|
            0 <= j < p.len() ==> (#[trigger] p[j]).backend == answer.id,
    ensures
        session_board::known(answered(b, fade, answer, now).entries, o, id)
            == session_board::known(b.entries, o, id),
{
    if answer.polled is Some {
        let snaps = fade.fade_all(answer.polled->0, now);
        session_board::lemma_replaced(b.entries, answer.id, snaps, b.pins, o, id);
        if answer.pinned is Some {
            let mid = with_report(b, fade, answer.id, answer.polled->0, now);
            let more = fade.fade_all(answer.pinned->0, now);
            session_board::lemma_upsert_each(mid.entries, more, o, id);
            assert forall|j: int| 0 <= j < more.len() implies (#[trigger] more[j]).backend
                == answer.id by {
                assert(answer.pinned->0[j].backend == answer.id);
            }
            lemma_no_other_backend(more, answer.id, o, id);
        }
    }
}

proof fn lemma_no_other_backend(
    s: Seq<SnapshotView>,
    backend: BackendId,
    o: BackendId,
    id: Seq<char>,
)
    requires
        o != backend,
        forall|j: int| 0 <= j < s.len() ==> (#[trigger] s[j]).backend == backend,
    ensures
        session_board::last_of_backend(s, o, id) is None,
    decreases s.len(),
{
    if s.len() > 0 {
        let t = s.drop_last();
        assert forall|j: int| 0 <= j < t.len() implies (#[trigger] t[j]).backend == backend by {
            assert(s[j].backend == backend);
        }
        lemma_no_other_backend(t, backend, o, id);
    }
}

/// A session that a backend reports, and one that it gives the latest state of,
/// is known to the board in its latest state, apart from Done having faded.
pub proof fn lemma_latest_state_counts(
    b: BoardView,
    fade: FadeView,
    answer: Answer,
    now: u64,
    id: Seq<char>,
)
    requires
        session_board::distinct(b.entries),
        answer.polled is Some,
    ensures
        ({
            let known = session_board::known(
                answered(b, fade, answer, now).entries,
                answer.id,
                id,
            );
            let reported = session_board::last_reported(fade.fade_all(answer.polled->0, now), id);
            let latest = if answer.pinned is Some {
                session_board::last_of_backend(
                    fade.fade_all(answer.pinned->0, now),
                    answer.id,
                    id,
                )
            } else {
                None
            };
            &&& latest is Some ==> known == latest
            &&& latest is None && reported is Some ==> known == reported
            &&& latest is None && reported is None && !session_board::pinned_session(b.pins, id)
                ==> known is None
        }),
{
    let snaps = fade.fade_all(answer.polled->0, now);
    session_board::lemma_replaced(b.entries, answer.id, snaps, b.pins, answer.id, id);
    if answer.pinned is Some {
        let mid = with_report(b, fade, answer.id, answer.polled->0, now);
        let more = fade.fade_all(answer.pinned->0, now);
        session_board::lemma_upsert_each(mid.entries, more, answer.id, id);
    }
}

/// An opening counts for the session that was opened, from the moment of the
/// opening, and for no other session. A finished WorkBuddy session then stays
/// Done for the short delay from that moment, and no longer.
pub proof fn lemma_opening_counts_for_its_session(
    h: HostView,
    backend: BackendId,
    id: Seq<char>,
    t: u64,
    s: SnapshotView,
    now: u64,
)
    ensures
        ({
            let after = h.opened(backend, id, t).fade;
            if s.backend == backend && s.session_id == id {
                &&& after.opened_at(s) == Some(t)
                &&& s.backend is Workbuddy && s.status is Done && s.updated_at <= t <= now ==> (
                after.fade(s, now).status is Done <==> now - t <= after.after_open_ms)
            } else {
                after.fade(s, now) == h.fade.fade(s, now)
            }
        }),
{
    if open_key(s.backend, s.session_id) == open_key(backend, id) {
        lemma_open_key_tells_sessions_apart(s.backend, s.session_id, backend, id);
    }
}

/// Binding a session to a key pins that key to it and leaves the other pins
/// alone. A session that is known, or that was found in a catalog, is known
/// from then on and on the key at once; for any other the key is empty.
pub proof fn lemma_binding_shows_session(
    h: HostView,
    i: usize,
    id: Seq<char>,
    found: Option<SnapshotView>,
    t: u64,
    now: u64,
)
    requires
        i < h.board.slot_count,
        session_board::distinct(h.board.entries),
        found matches Some(s) ==> s.session_id == id,
    ensures
        ({
            let b = bound(h, i, Some(id), found, t, now).board;
            let known = found is Some || session_board::first_with_id(h.board.entries, id) is Some;
            &&& b.pins == h.board.pins.insert(i, id)
            &&& known == session_board::first_with_id(b.entries, id) is Some
            &&& b.board is Some
            &&& b.board->0.slots[i as int].pinned == Some(true)
            &&& b.board->0.slots[i as int].session_id == (if known {
                Some(id)
            } else {
                None
            })
        }),
{
    let known = session_board::first_with_id(h.board.entries, id) is Some;
    let mid = if known || found is None {
        h
    } else {
        h.recalled(found->0, t)
    };
    if !known && found is Some {
        let s = h.fade.fade(found->0, t);
        let e = session_board::EntryView { owner: s.backend, snapshot: s };
        session_board::lemma_upsert(h.board.entries, e);
        session_board::lemma_known_is_found(
            session_board::upsert(h.board.entries, e),
            s.backend,
            id,
        );
    }
    let b = BoardView { pins: mid.board.pins.insert(i, id), ..mid.board };
    assert(slot_allocator::pinned_at(b.pins, i as int));
    session_board::lemma_pin_binds_key(b, now, i as int);
}

/// The catalog lists each session once.
pub proof fn lemma_catalog_lists_once(c: Seq<Seq<SnapshotView>>, i: int, j: int)
    requires
        0 <= i < j < merged(c).len(),
    ensures
        merged(c)[i].backend != merged(c)[j].backend || merged(c)[i].session_id != merged(
            c,
        )[j].session_id,
{
    let rows = gathered(c);
    let key = |r: InfoView| info_rank(r);
    let ranks = rows.map_values(key);
    ordering::lemma_order_of(ranks);
    let p = ordering::order_of(ranks);
    lemma_gathered_once(c);
    assert(ordering::precedes(ranks, p[i], p[j]));
    let a = if p[i] < p[j] {
        p[i]
    } else {
        p[j]
    };
    let b = if p[i] < p[j] {
        p[j]
    } else {
        p[i]
    };
    assert(rows[a].backend != rows[b].backend || rows[a].session_id != rows[b].session_id);
}

/// No session has two rows.
spec fn once(rows: Seq<InfoView>) -> bool {
    forall|i: int, j: int|
        0 <= i < j < rows.len() ==> (#[trigger] rows[i]).backend != (#[trigger] rows[j]).backend
            || rows[i].session_id != rows[j].session_id
}

proof fn lemma_collected_once(rows: Seq<InfoView>, snaps: Seq<SnapshotView>)
    requires
        once(rows),
    ensures
        once(collected(rows, snaps)),
    decreases snaps.len(),
{
    if snaps.len() > 0 {
        lemma_collected_once(rows, snaps.drop_last());
        let r = collected(rows, snaps.drop_last());
        let x = snaps.last();
        if !listed(r, x.backend, x.session_id) {
            let t = r.push(info_of(x));
            assert forall|i: int, j: int| 0 <= i < j < t.len() implies (#[trigger] t[i]).backend
                != (#[trigger] t[j]).backend || t[i].session_id != t[j].session_id by {
                if j == r.len() {
                    assert(!(r[i].backend == x.backend && r[i].session_id == x.session_id));
                }
            }
        }
    }
}

proof fn lemma_gathered_once(c: Seq<Seq<SnapshotView>>)
    ensures
        once(gathered(c)),
    decreases c.len(),
{
    if c.len() > 0 {
        lemma_gathered_once(c.drop_last());
        lemma_collected_once(gathered(c.drop_last()), c.last());
    }
}

/// The catalog lists every session of every backend's catalog.
pub proof fn lemma_catalog_lists_all(c: Seq<Seq<SnapshotView>>, i: int, j: int)
    requires
        0 <= i < c.len(),
        0 <= j < c[i].len(),
    ensures
        listed(merged(c), c[i][j].backend, c[i][j].session_id),
{
    lemma_gathered_lists_all(c, i, j);
    let rows = gathered(c);
    let x = c[i][j];
    let k = choose|k: int|
        0 <= k < rows.len() && (#[trigger] rows[k]).backend == x.backend && rows[k].session_id
            == x.session_id;
    let key = |r: InfoView| info_rank(r);
    ordering::lemma_ranked(rows, key);
    assert(rows.contains(rows[k]));
    assert(ordering::ranked(rows, key).contains(rows[k]));
    let a = choose|a: int| 0 <= a < merged(c).len() && merged(c)[a] == rows[k];
    assert(merged(c)[a].backend == x.backend);
}

proof fn lemma_collected_keeps(
    rows: Seq<InfoView>,
    snaps: Seq<SnapshotView>,
    backend: BackendId,
    id: Seq<char>,
)
    requires
        listed(rows, backend, id) || exists|j: int|
            0 <= j < snaps.len() && (#[trigger] snaps[j]).backend == backend && snaps[j].session_id
                == id,
    ensures
        listed(collected(rows, snaps), backend, id),
    decreases snaps.len(),
{
    if snaps.len() > 0 {
        let t = snaps.drop_last();
        let r = collected(rows, t);
        let x = snaps.last();
        let here = x.backend == backend && x.session_id == id;
        if listed(rows, backend, id) || exists|j: int|
            0 <= j < t.len() && (#[trigger] t[j]).backend == backend && t[j].session_id == id {
            lemma_collected_keeps(rows, t, backend, id);
            let k = choose|k: int|
                0 <= k < r.len() && (#[trigger] r[k]).backend == backend && r[k].session_id == id;
            let q = collected(rows, snaps);
            assert(q[k] == r[k]);
        } else {
            let j = choose|j: int|
                0 <= j < snaps.len() && (#[trigger] snaps[j]).backend == backend
                    && snaps[j].session_id == id;
            if j < t.len() {
                assert(t[j] == snaps[j]);
            }
            assert(here);
            let q = collected(rows, snaps);
            if !listed(r, backend, id) {
                assert(q[q.len() - 1] == info_of(x));
            }
        }
    }
}

proof fn lemma_gathered_lists_all(c: Seq<Seq<SnapshotView>>, i: int, j: int)
    requires
        0 <= i < c.len(),
        0 <= j < c[i].len(),
    ensures
        listed(gathered(c), c[i][j].backend, c[i][j].session_id),
    decreases c.len(),
{
    let x = c[i][j];
    if i < c.len() - 1 {
        lemma_gathered_lists_all(c.drop_last(), i, j);
    } else {
        assert(c.last()[j] == x);
    }
    lemma_collected_keeps(gathered(c.drop_last()), c.last(), x.backend, x.session_id);
}

/// A key that an action names wins over the focus.
pub proof fn lemma_named_key_wins_over_focus(b: BoardView, action: Action, focus: int)
    requires
        named_slot(action) is Some,
    ensures
        routed(b, action) == routed(BoardView { focus, ..b }, action),
{
}

/// Fading changes nothing of a session but its status, and fading it again at
/// the same time changes nothing at all.
pub proof fn lemma_fading_settles_at_once(fade: FadeView, s: Seq<SnapshotView>, now: u64)
    ensures
        fade.fade_all(s, now).len() == s.len(),
        forall|i: int|
            0 <= i < s.len() ==> #[trigger] fade.fade_all(s, now)[i] == (SnapshotView {
                status: fade.fade_all(s, now)[i].status,
                ..s[i]
            }),
        fade.fade_all(fade.fade_all(s, now), now) == fade.fade_all(s, now),
{
    let once = fade.fade_all(s, now);
    assert forall|i: int| 0 <= i < s.len() implies fade.fade(#[trigger] once[i], now) == once[i] by {
        assert(once[i] == fade.fade(s[i], now));
        assert(fade.opened_at(once[i]) == fade.opened_at(s[i]));
    }
    assert(fade.fade_all(once, now) =~= once);
}

/// The board of a well-formed host is well formed.
pub proof fn lemma_host_wf(h: &HostCore)
    requires
        h.wf(),
    ensures
        session_board::distinct(h@.board.entries),
        h@.board.focus == 0 || h@.board.focus < h@.board.slot_count,
{
    session_board::lemma_wf(&h.board);
}

/// Without pins no backend is asked for pinned sessions, and one whose poll
/// failed never is.
pub proof fn lemma_only_pins_are_asked_for(
    before: Seq<Box<dyn BackendObserver>>,
    pins: Map<usize, Seq<char>>,
    a: Seq<Answer>,
    j: int,
)
    requires
        may_tick(before, pins, a),
        0 <= j < a.len(),
        pins =~= Map::<usize, Seq<char>>::empty() || a[j].polled is None,
    ensures
        a[j].pinned is None,
{
    let (polled, ids) = choose|
        polled: Seq<Seq<Box<dyn BackendObserver>>>,
        ids: Seq<Seq<char>>,
    | #[trigger]
        may_give_all(before, polled, ids, a) && (forall|id: Seq<char>|
            session_board::pinned_session(pins, id) <==> #[trigger] ids.contains(id));
    assert(may_give(before, polled[j], j, ids, a[j]));
    if a[j].pinned is Some {
        assert(ids.contains(ids[0]));
        assert(session_board::pinned_session(pins, ids[0]));
    }
}

/// An action goes to the first observer of its backend: if observer `k` is of
/// that backend and none before it is, `k` answers and all others are as before.
pub proof fn lemma_first_of_its_backend_answers(
    before: Seq<Box<dyn BackendObserver>>,
    after: Seq<Box<dyn BackendObserver>>,
    k: int,
    backend: BackendId,
    session: Seq<char>,
    action: Action,
    reply: Seq<char>,
)
    requires
        delivered(before, after, backend, session, action, reply),
        0 <= k < before.len(),
        forall|j: int| 0 <= j < k ==> !(#[trigger] before[j]).may_be(backend),
        forall|id: BackendId| before[k].may_be(id) ==> id == backend,
    ensures
        answered_by(before, k, session, action, reply),
        unchanged_but(before, after, k),
{
    let ids = choose|ids: Seq<BackendId>| #[trigger]
        handed_over(before, after, ids, backend, session, action, reply);
    assert forall|j: int| 0 <= j < k && j < ids.len() implies ids[j] != backend by {
        assert(before[j].may_be(ids[j]));
    }
    if k < ids.len() {
        assert(before[k].may_be(ids[k]));
        assert(ids.contains(ids[k]));
        if k < ids.len() - 1 {
            assert(ids.drop_last()[k] == backend);
        }
    }
}

/// An action for a backend that nobody observes is refused, and no observer is
/// handed anything.
pub proof fn lemma_unobserved_backend_refuses(
    before: Seq<Box<dyn BackendObserver>>,
    after: Seq<Box<dyn BackendObserver>>,
    backend: BackendId,
    session: Seq<char>,
    action: Action,
    reply: Seq<char>,
)
    requires
        delivered(before, after, backend, session, action, reply),
        forall|j: int| 0 <= j < before.len() ==> !(#[trigger] before[j]).may_be(backend),
    ensures
        reply == "unsupported:"@ + action.tag() + ":no_observer"@,
        after == before,
{
    let ids = choose|ids: Seq<BackendId>| #[trigger]
        handed_over(before, after, ids, backend, session, action, reply);
    if ids.contains(backend) {
        let j = choose|j: int| 0 <= j < ids.len() && ids[j] == backend;
        assert(before[j].may_be(ids[j]));
    }
}

/// What is known of a backend's session after it has answered, given what was
/// known before: the latest state if it was asked for the session, else what it
/// reports. What it no longer reports is forgotten unless it is pinned. After a
/// failed poll all is as before.
pub open spec fn told(
    before: Option<SnapshotView>,
    pins: Map<usize, Seq<char>>,
    fade: FadeView,
    a: Answer,
    now: u64,
    id: Seq<char>,
) -> Option<SnapshotView> {
    match a.polled {
        None => before,
        Some(snaps) => {
            let latest = match a.pinned {
                Some(p) => session_board::last_of_backend(fade.fade_all(p, now), a.id, id),
                None => None,
            };
            let reported = session_board::last_reported(fade.fade_all(snaps, now), id);
            if latest is Some {
                latest
            } else if reported is Some {
                reported
            } else if session_board::pinned_session(pins, id) {
                before
            } else {
                None
            }
        },
    }
}

/// An observer answers for the sessions of its own backend only.
pub open spec fn keeps_to_its_own(a: Answer) -> bool {
    a.pinned matches Some(p) ==> forall|j: int|
        0 <= j < p.len() ==> (#[trigger] p[j]).backend == a.id
}

proof fn lemma_answer_is_told(
    b: BoardView,
    fade: FadeView,
    a: Answer,
    now: u64,
    o: BackendId,
    id: Seq<char>,
)
    requires
        session_board::distinct(b.entries),
        keeps_to_its_own(a),
    ensures
        session_board::distinct(answered(b, fade, a, now).entries),
        answered(b, fade, a, now).pins == b.pins,
        session_board::known(answered(b, fade, a, now).entries, o, id) == (if o == a.id {
            told(session_board::known(b.entries, o, id), b.pins, fade, a, now, id)
        } else {
            session_board::known(b.entries, o, id)
        }),
{
    if o != a.id {
        lemma_report_leaves_other_backends(b, fade, a, now, o, id);
    }
    if a.polled is Some {
        let snaps = fade.fade_all(a.polled->0, now);
        session_board::lemma_replaced(b.entries, a.id, snaps, b.pins, o, id);
        if a.pinned is Some {
            let mid = with_report(b, fade, a.id, a.polled->0, now);
            let more = fade.fade_all(a.pinned->0, now);
            session_board::lemma_upsert_each(mid.entries, more, o, id);
        }
    }
}

/// After a tick the board knows of each backend's sessions what that backend
/// told, whatever the others answered: as before if its poll failed, or else as
/// it reported them, with Done faded, and as it gave them anew where they are
/// pinned.
pub proof fn lemma_tick_keeps_backends_apart(
    b: BoardView,
    fade: FadeView,
    a: Seq<Answer>,
    now: u64,
    j: int,
    id: Seq<char>,
)
    requires
        session_board::distinct(b.entries),
        0 <= j < a.len(),
        forall|i: int, k: int| 0 <= i < k < a.len() ==> (#[trigger] a[i]).id != (#[trigger] a[k]).id,
        forall|i: int| 0 <= i < a.len() ==> keeps_to_its_own(#[trigger] a[i]),
    ensures
        session_board::distinct(all_answered(b, fade, a, now).entries),
        session_board::known(all_answered(b, fade, a, now).entries, a[j].id, id) == told(
            session_board::known(b.entries, a[j].id, id),
            b.pins,
            fade,
            a[j],
            now,
            id,
        ),
{
    lemma_told_so_far(b, fade, a, now, j, id, a.len() as int);
    assert(a.take(a.len() as int) == a);
}

proof fn lemma_told_so_far(
    b: BoardView,
    fade: FadeView,
    a: Seq<Answer>,
    now: u64,
    j: int,
    id: Seq<char>,
    n: int,
)
    requires
        session_board::distinct(b.entries),
        0 <= j < a.len(),
        0 <= n <= a.len(),
        forall|i: int, k: int| 0 <= i < k < a.len() ==> (#[trigger] a[i]).id != (#[trigger] a[k]).id,
        forall|i: int| 0 <= i < a.len() ==> keeps_to_its_own(#[trigger] a[i]),
    ensures
        ({
            let c = all_answered(b, fade, a.take(n), now);
            let before = session_board::known(b.entries, a[j].id, id);
            &&& session_board::distinct(c.entries)
            &&& c.pins == b.pins
            &&& session_board::known(c.entries, a[j].id, id) == (if n <= j {
                before
            } else {
                told(before, b.pins, fade, a[j], now, id)
            })
        }),
    decreases n,
{
    if n > 0 {
        lemma_told_so_far(b, fade, a, now, j, id, n - 1);
        assert(a.take(n).drop_last() == a.take(n - 1));
        assert(a.take(n).last() == a[n - 1]);
        let c = all_answered(b, fade, a.take(n - 1), now);
        lemma_answer_is_told(c, fade, a[n - 1], now, a[j].id, id);
        if n - 1 < j {
            assert(a[n - 1].id != a[j].id);
        } else if j < n - 1 {
            assert(a[j].id != a[n - 1].id);
        }
    }
}

/// A finished session of WorkBuddy that was opened since it was done stays done
/// for as long after the opening as the first delay says; one that was not, for
/// as long after its end as the second says. Each turns idle after that.
pub proof fn lemma_done_stays_for_its_delay(
    s: SnapshotView,
    opened_at: Option<u64>,
    now: u64,
    after_open_ms: u64,
    unopened_ms: u64,
)
    requires
        s.backend is Workbuddy,
        s.status is Done,
    ensures
        ({
            let status = faded(s, opened_at, now, after_open_ms, unopened_ms);
            let opened = opened_at matches Some(t) && t >= s.updated_at;
            &&& opened && now <= opened_at->0 + after_open_ms ==> status is Done
            &&& opened && now > opened_at->0 + after_open_ms ==> status is Idle
            &&& !opened && now <= s.updated_at + unopened_ms ==> status is Done
            &&& !opened && now > s.updated_at + unopened_ms ==> status is Idle
        }),
{
}

/// Fading goes by the opening of the same session of the same backend and by the
/// host's own delays, and changes the status alone.
pub proof fn lemma_fading_goes_by_the_openings(
    fade: FadeView,
    s: SnapshotView,
    now: u64,
    t: Option<u64>,
)
    requires
        t matches Some(x) ==> fade.opened.contains_key(s.backend.label() + ":"@ + s.session_id)
            && fade.opened[s.backend.label() + ":"@ + s.session_id] == x,
        t is None ==> !fade.opened.contains_key(s.backend.label() + ":"@ + s.session_id),
    ensures
        fade.fade(s, now).status == faded(s, t, now, fade.after_open_ms, fade.unopened_ms),
        fade.fade(s, now) == (SnapshotView { status: fade.fade(s, now).status, ..s }),
{
}

/// The row tells of this session.
pub open spec fn row_tells(r: InfoView, s: SnapshotView) -> bool {
    &&& r.backend == s.backend
    &&& r.session_id == s.session_id
    &&& r.title == s.title
    &&& r.status == s.status
    &&& r.workspace_path == s.workspace_path
    &&& r.detail == s.detail
    &&& r.updated_at == s.updated_at
    &&& r.project_category == s.project_category
    &&& r.project_label == s.project_label
}

/// Session `j` of catalog `i` is the first of its backend and id, over all
/// catalogs.
pub open spec fn first_listed(c: Seq<Seq<SnapshotView>>, i: int, j: int) -> bool {
    &&& 0 <= i < c.len()
    &&& 0 <= j < c[i].len()
    &&& forall|p: int, q: int|
        #![trigger c[p][q]]
        0 <= p <= i && 0 <= q < c[p].len() && (p < i || q < j) ==> c[p][q].backend
            != c[i][j].backend || c[p][q].session_id != c[i][j].session_id
}

proof fn lemma_collected_rows(rows: Seq<InfoView>, snaps: Seq<SnapshotView>)
    ensures
        ({
            let r = collected(rows, snaps);
            &&& rows.len() <= r.len()
            &&& forall|k: int| 0 <= k < rows.len() ==> #[trigger] r[k] == rows[k]
            &&& forall|k: int|
                rows.len() <= k < r.len() ==> exists|q: int|
                    0 <= q < snaps.len() && #[trigger] r[k] == info_of(#[trigger] snaps[q])
                        && fresh_in(rows, snaps, q)
            &&& forall|q: int|
                0 <= q < snaps.len() && fresh_in(rows, snaps, q) ==> r.contains(
                    info_of(#[trigger] snaps[q]),
                )
            &&& forall|b: BackendId, id: Seq<char>| #[trigger]
                listed(r, b, id) <==> listed(rows, b, id) || exists|q: int|
                    0 <= q < snaps.len() && (#[trigger] snaps[q]).backend == b
                        && snaps[q].session_id == id
        }),
    decreases snaps.len(),
{
    if snaps.len() > 0 {
        let t = snaps.drop_last();
        let n = snaps.len() - 1;
        lemma_collected_rows(rows, t);
        let r0 = collected(rows, t);
        let r = collected(rows, snaps);
        let x = snaps[n];
        assert forall|q: int| 0 <= q < n implies fresh_in(rows, t, q) == fresh_in(
            rows,
            snaps,
            q,
        ) by {
            assert(t[q] == snaps[q]);
            assert(forall|p: int| 0 <= p < q ==> t[p] == snaps[p]);
        }
        assert(listed(r0, x.backend, x.session_id) <==> !fresh_in(rows, snaps, n)) by {
            if exists|q: int|
                0 <= q < t.len() && (#[trigger] t[q]).backend == x.backend && t[q].session_id
                    == x.session_id {
                let q = choose|q: int|
                    0 <= q < t.len() && (#[trigger] t[q]).backend == x.backend && t[q].session_id
                        == x.session_id;
                assert(snaps[q] == t[q]);
            }
            if !fresh_in(rows, snaps, n) && !listed(rows, x.backend, x.session_id) {
                let q = choose|q: int|
                    0 <= q < n && (#[trigger] snaps[q]).backend == x.backend
                        && snaps[q].session_id == x.session_id;
                assert(t[q] == snaps[q]);
            }
        }
        assert forall|k: int| rows.len() <= k < r.len() implies exists|q: int|
            0 <= q < snaps.len() && #[trigger] r[k] == info_of(#[trigger] snaps[q]) && fresh_in(
                rows,
                snaps,
                q,
            ) by {
            if k < r0.len() {
                let q = choose|q: int|
                    0 <= q < t.len() && r0[k] == info_of(#[trigger] t[q]) && fresh_in(rows, t, q);
                assert(r[k] == info_of(snaps[q]) && fresh_in(rows, snaps, q));
            } else {
                assert(r[k] == info_of(snaps[n]) && fresh_in(rows, snaps, n));
            }
        }
        assert forall|q: int| 0 <= q < snaps.len() && fresh_in(rows, snaps, q) implies r.contains(
            info_of(#[trigger] snaps[q]),
        ) by {
            if q < n {
                assert(t[q] == snaps[q]);
                assert(r0.contains(info_of(t[q])));
                let k = choose|k: int| 0 <= k < r0.len() && r0[k] == info_of(t[q]);
                assert(r[k] == info_of(snaps[q]));
            } else {
                assert(r[r0.len() as int] == info_of(x));
            }
        }
        assert forall|b: BackendId, id: Seq<char>| #[trigger]
            listed(r, b, id) <==> listed(rows, b, id) || exists|q: int|
                0 <= q < snaps.len() && (#[trigger] snaps[q]).backend == b && snaps[q].session_id
                    == id by {
            if listed(r0, b, id) {
                let k = choose|k: int|
                    0 <= k < r0.len() && (#[trigger] r0[k]).backend == b && r0[k].session_id == id;
                assert(r[k] == r0[k]);
                if !listed(rows, b, id) {
                    let q = choose|q: int|
                        0 <= q < t.len() && (#[trigger] t[q]).backend == b && t[q].session_id
                            == id;
                    assert(snaps[q] == t[q]);
                }
            }
            if listed(r, b, id) && !listed(r0, b, id) {
                let k = choose|k: int|
                    0 <= k < r.len() && (#[trigger] r[k]).backend == b && r[k].session_id == id;
                if k < r0.len() {
                    assert(r0[k] == r[k]);
                }
                assert(snaps[n].backend == b && snaps[n].session_id == id);
            }
            if exists|q: int|
                0 <= q < snaps.len() && (#[trigger] snaps[q]).backend == b && snaps[q].session_id
                    == id {
                let q = choose|q: int|
                    0 <= q < snaps.len() && (#[trigger] snaps[q]).backend == b
                        && snaps[q].session_id == id;
                if q < n {
                    assert(t[q] == snaps[q]);
                    assert(listed(r0, b, id));
                } else if !listed(r0, b, id) {
                    assert(r[r0.len() as int] == info_of(x));
                    assert(listed(r, b, id));
                }
            }
            if listed(rows, b, id) {
                assert(listed(r0, b, id));
            }
        }
    }
}

/// Session `q` is neither in the rows nor among the sessions before it.
spec fn fresh_in(rows: Seq<InfoView>, snaps: Seq<SnapshotView>, q: int) -> bool {
    !listed(rows, snaps[q].backend, snaps[q].session_id) && forall|p: int|
        0 <= p < q ==> !((#[trigger] snaps[p]).backend == snaps[q].backend && snaps[p].session_id
            == snaps[q].session_id)
}

/// The row is that of the first session of its backend and id, session `j` of
/// catalog `i`.
spec fn rows_first(c: Seq<Seq<SnapshotView>>, i: int, j: int, r: InfoView) -> bool {
    first_listed(c, i, j) && r == info_of(c[i][j])
}

/// The row is that of some session, the first of its backend and id.
spec fn rows_some(c: Seq<Seq<SnapshotView>>, r: InfoView) -> bool {
    exists|i: int, j: int| #[trigger] rows_first(c, i, j, r)
}

/// Session `j` of catalog `i` has this backend and id.
spec fn lists_at(
    c: Seq<Seq<SnapshotView>>,
    i: int,
    j: int,
    b: BackendId,
    id: Seq<char>,
) -> bool {
    0 <= i < c.len() && 0 <= j < c[i].len() && c[i][j].backend == b && c[i][j].session_id == id
}

proof fn lemma_first_listed(c: Seq<Seq<SnapshotView>>, i: int, j: int)
    requires
        0 <= i < c.len(),
        0 <= j < c[i].len(),
    ensures
        first_listed(c, i, j) <==> forall|p: int, q: int| #[trigger]
            lists_at(c, p, q, c[i][j].backend, c[i][j].session_id) ==> p > i || p == i && q >= j,
{
    let (b, id) = (c[i][j].backend, c[i][j].session_id);
    if first_listed(c, i, j) {
        assert forall|p: int, q: int| #[trigger] lists_at(c, p, q, b, id) implies p > i || p == i
            && q >= j by {
            let x = c[p][q];
        }
    }
    if forall|p: int, q: int| #[trigger]
        lists_at(c, p, q, b, id) ==> p > i || p == i && q >= j {
        assert forall|p: int, q: int|
            #![trigger c[p][q]]
            0 <= p <= i && 0 <= q < c[p].len() && (p < i || q < j) implies c[p][q].backend != b
            || c[p][q].session_id != id by {
            assert(lists_at(c, p, q, b, id) ==> p > i || p == i && q >= j);
        }
    }
}

proof fn lemma_first_listed_before(c: Seq<Seq<SnapshotView>>, i: int, j: int)
    requires
        0 <= i < c.len() - 1,
        0 <= j < c[i].len(),
    ensures
        first_listed(c.drop_last(), i, j) == first_listed(c, i, j),
{
    let t = c.drop_last();
    let (b, id) = (c[i][j].backend, c[i][j].session_id);
    assert(t[i] == c[i]);
    lemma_first_listed(c, i, j);
    lemma_first_listed(t, i, j);
    assert forall|p: int, q: int| p < c.len() - 1 implies #[trigger] lists_at(t, p, q, b, id)
        == lists_at(c, p, q, b, id) by {}
    if first_listed(c, i, j) {
        assert forall|p: int, q: int| #[trigger] lists_at(t, p, q, b, id) implies p > i || p == i
            && q >= j by {
            assert(lists_at(c, p, q, b, id));
        }
    }
    if first_listed(t, i, j) {
        assert forall|p: int, q: int| #[trigger] lists_at(c, p, q, b, id) implies p > i || p == i
            && q >= j by {
            if p < c.len() - 1 {
                assert(lists_at(t, p, q, b, id));
            }
        }
    }
}

proof fn lemma_first_listed_last(c: Seq<Seq<SnapshotView>>, rows: Seq<InfoView>, j: int)
    requires
        c.len() > 0,
        0 <= j < c.last().len(),
        forall|b: BackendId, id: Seq<char>| #[trigger]
            listed(rows, b, id) <==> exists|p: int, q: int| #[trigger]
                lists_at(c.drop_last(), p, q, b, id),
    ensures
        first_listed(c, c.len() - 1, j) == fresh_in(rows, c.last(), j),
{
    let t = c.drop_last();
    let n = c.len() - 1;
    let s = c.last();
    let (b, id) = (s[j].backend, s[j].session_id);
    lemma_first_listed(c, n, j);
    if fresh_in(rows, s, j) {
        assert forall|p: int, q: int| #[trigger] lists_at(c, p, q, b, id) implies p > n || p == n
            && q >= j by {
            if p < n {
                assert(t[p] == c[p]);
                assert(lists_at(t, p, q, b, id));
            }
        }
    }
    if first_listed(c, n, j) {
        if listed(rows, b, id) {
            let (p, q) = choose|p: int, q: int| #[trigger] lists_at(t, p, q, b, id);
            assert(t[p] == c[p]);
            assert(lists_at(c, p, q, b, id));
        }
        assert forall|p: int| 0 <= p < j implies !((#[trigger] s[p]).backend == b
            && s[p].session_id == id) by {
            assert(lists_at(c, n, p, b, id) ==> p >= j);
        }
    }
}

proof fn lemma_gathered_keys(c: Seq<Seq<SnapshotView>>)
    ensures
        forall|b: BackendId, id: Seq<char>| #[trigger]
            listed(gathered(c), b, id) <==> exists|i: int, j: int| #[trigger]
                lists_at(c, i, j, b, id),
    decreases c.len(),
{
    if c.len() > 0 {
        let t = c.drop_last();
        let n = c.len() - 1;
        let s = c[n];
        lemma_gathered_keys(t);
        lemma_collected_rows(gathered(t), s);
        assert forall|b: BackendId, id: Seq<char>| #[trigger]
            listed(gathered(c), b, id) <==> exists|i: int, j: int| #[trigger]
                lists_at(c, i, j, b, id) by {
            if listed(gathered(t), b, id) {
                let (i, j) = choose|i: int, j: int| #[trigger] lists_at(t, i, j, b, id);
                assert(t[i] == c[i]);
                assert(lists_at(c, i, j, b, id));
            } else if listed(gathered(c), b, id) {
                let q = choose|q: int|
                    0 <= q < s.len() && (#[trigger] s[q]).backend == b && s[q].session_id == id;
                assert(lists_at(c, n, q, b, id));
            }
            if exists|i: int, j: int| #[trigger] lists_at(c, i, j, b, id) {
                let (i, j) = choose|i: int, j: int| #[trigger] lists_at(c, i, j, b, id);
                if i < n {
                    assert(t[i] == c[i]);
                    assert(lists_at(t, i, j, b, id));
                    assert(listed(gathered(t), b, id));
                } else {
                    assert(s[j].backend == b && s[j].session_id == id);
                }
            }
        }
    }
}

proof fn lemma_gathered_rows(c: Seq<Seq<SnapshotView>>)
    ensures
        forall|k: int|
            0 <= k < gathered(c).len() ==> rows_some(c, #[trigger] gathered(c)[k]),
        forall|i: int, j: int| #[trigger]
            first_listed(c, i, j) ==> gathered(c).contains(info_of(c[i][j])),
    decreases c.len(),
{
    if c.len() > 0 {
        let t = c.drop_last();
        let n = c.len() - 1;
        let s = c[n];
        let rows = gathered(t);
        let r = gathered(c);
        lemma_gathered_rows(t);
        lemma_gathered_keys(t);
        lemma_collected_rows(rows, s);
        assert forall|k: int|
            0 <= k < r.len() implies rows_some(c, #[trigger] r[k]) by {
            if k < rows.len() {
                let (i, j) = choose|i: int, j: int| #[trigger] rows_first(t, i, j, rows[k]);
                assert(t[i] == c[i]);
                lemma_first_listed_before(c, i, j);
                assert(rows_first(c, i, j, r[k]));
            } else {
                let q = choose|q: int|
                    0 <= q < s.len() && r[k] == info_of(#[trigger] s[q]) && fresh_in(rows, s, q);
                lemma_first_listed_last(c, rows, q);
                assert(rows_first(c, n, q, r[k]));
            }
        }
        assert forall|i: int, j: int| #[trigger] first_listed(c, i, j) implies r.contains(
            info_of(c[i][j]),
        ) by {
            if i < n {
                lemma_first_listed_before(c, i, j);
                assert(t[i] == c[i]);
                assert(first_listed(t, i, j));
                let k = choose|k: int| 0 <= k < rows.len() && rows[k] == info_of(t[i][j]);
                assert(r[k] == info_of(c[i][j]));
            } else {
                lemma_first_listed_last(c, rows, j);
                assert(r.contains(info_of(s[j])));
            }
        }
    }
}

/// The rows of the bind picker tell of the first occurrence of each session over
/// all catalogs, and of nothing else.
pub proof fn lemma_catalog_rows_tell_first_occurrences(
    c: Seq<Seq<SnapshotView>>,
    i: int,
    j: int,
    k: int,
)
    ensures
        first_listed(c, i, j) ==> exists|x: int|
            0 <= x < merged(c).len() && row_tells(#[trigger] merged(c)[x], c[i][j]),
        0 <= k < merged(c).len() ==> exists|p: int, q: int|
            first_listed(c, p, q) && row_tells(merged(c)[k], #[trigger] c[p][q]),
{
    let key = |r: InfoView| info_rank(r);
    lemma_gathered_rows(c);
    ordering::lemma_ranked(gathered(c), key);
    if first_listed(c, i, j) {
        assert(gathered(c).contains(info_of(c[i][j])));
        assert(merged(c).contains(info_of(c[i][j])));
        let x = choose|x: int| 0 <= x < merged(c).len() && merged(c)[x] == info_of(c[i][j]);
        assert(row_tells(merged(c)[x], c[i][j]));
    }
    if 0 <= k < merged(c).len() {
        let r = merged(c)[k];
        assert(merged(c).contains(r));
        assert(gathered(c).contains(r));
        let y = choose|y: int| 0 <= y < gathered(c).len() && gathered(c)[y] == r;
        assert(rows_some(c, gathered(c)[y]));
        let (p, q) = choose|p: int, q: int| #[trigger] rows_first(c, p, q, gathered(c)[y]);
        assert(row_tells(merged(c)[k], c[p][q]));
    }
}

/// The rows of the bind picker go by status, in the row waiting, error, working,
/// done, idle, off, then by the last update, the latest first.
pub proof fn lemma_catalog_goes_by_status_and_time(c: Seq<Seq<SnapshotView>>, i: int, j: int)
    requires
        0 <= i < j < merged(c).len(),
    ensures
        ({
            let (x, y) = (merged(c)[i], merged(c)[j]);
            let (a, b) = (x.status, y.status);
            if a == b {
                x.updated_at >= y.updated_at
            } else {
                ||| a is Waiting
                ||| a is Error && !(b is Waiting)
                ||| a is Working && !(b is Waiting) && !(b is Error)
                ||| a is Done && (b is Idle || b is Off)
                ||| a is Idle && b is Off
            }
        }),
{
    let key = |r: InfoView| info_rank(r);
    ordering::lemma_ranked(gathered(c), key);
    assert(!ordering::above(key(merged(c)[j]), key(merged(c)[i])));
}

/// The catalogs that were given are the successful answers, in their order.
pub proof fn lemma_given_are_the_successes(replies: Seq<Result<Seq<SnapshotView>, Seq<char>>>)
    ensures
        replies.len() == 0 ==> given(replies).len() == 0,
        replies.len() > 0 && replies.last() is Ok ==> given(replies) == given(
            replies.drop_last(),
        ).push(replies.last()->Ok_0),
        replies.len() > 0 && replies.last() is Err ==> given(replies) == given(
            replies.drop_last(),
        ),
        (forall|j: int| 0 <= j < replies.len() ==> (#[trigger] replies[j]) is Ok) ==> given(
            replies,
        ).len() == replies.len(),
    decreases replies.len(),
{
    if replies.len() > 0 {
        lemma_given_are_the_successes(replies.drop_last());
        if forall|j: int| 0 <= j < replies.len() ==> (#[trigger] replies[j]) is Ok {
            assert forall|j: int| 0 <= j < replies.len() - 1 implies (
            #[trigger] replies.drop_last()[j]) is Ok by {
                assert(replies[j] is Ok);
            }
            assert(replies[replies.len() - 1] is Ok);
        }
    }
}

/// What a catalog is found to say of a session is its first entry under that id;
/// a failed answer says nothing.
pub proof fn lemma_first_of_an_id_is_found(s: Seq<SnapshotView>, id: Seq<char>, i: int)
    requires
        0 <= i <= s.len(),
        forall|k: int| 0 <= k < i ==> (#[trigger] s[k]).session_id != id,
        i < s.len() ==> s[i].session_id == id,
    ensures
        found_in(Ok(s), id) == (if i < s.len() {
            Some(s[i])
        } else {
            None
        }),
        forall|e: Seq<char>| #[trigger] found_in(Err(e), id) is None,
    decreases s.len(),
{
    if s.len() > 0 {
        let t = s.drop_last();
        let m = if i < t.len() {
            i
        } else {
            t.len() as int
        };
        assert forall|k: int| 0 <= k < m implies (#[trigger] t[k]).session_id != id by {
            assert(s[k].session_id != id);
        }
        lemma_first_of_an_id_is_found(t, id, m);
    }
}

/// Stop-all goes to every backend, whatever the board shows; focusing, pinning,
/// freezing and changing the mode go to none.
pub proof fn lemma_actions_without_a_key(b: BoardView, action: Action)
    ensures
        action is StopAll ==> routed(b, action) is Broadcast,
        action is Focus || action is Pin || action is FreezeAll || action is Unfreeze || action
            is SetMode ==> routed(b, action) == RouteView::Status("unsupported:"@ + action.tag()),
{
}

/// An action on a session goes to the backend of the session that the board
/// shows on the key it names, or on the focused key if it names none, together
/// with that session's id.
pub proof fn lemma_action_follows_its_key(b: BoardView, action: Action, k: int)
    requires
        action matches Action::Accept { i } ==> k == (if i is Some {
            i->0 as int
        } else {
            b.focus
        }),
        action matches Action::Reject { i } ==> k == (if i is Some {
            i->0 as int
        } else {
            b.focus
        }),
        action matches Action::Stop { i } ==> k == (if i is Some {
            i->0 as int
        } else {
            b.focus
        }),
        action matches Action::Send { i, .. } ==> k == (if i is Some {
            i->0 as int
        } else {
            b.focus
        }),
        action is Accept || action is Reject || action is Stop || action is Send,
        0 <= k,
    ensures
        ({
            let refused = "unsupported:"@ + action.tag();
            match b.board {
                None => routed(b, action) == RouteView::Status(refused + ":no_board"@),
                Some(state) => {
                    let slot = state.slots[k];
                    &&& k >= state.slots.len() ==> routed(b, action) == RouteView::Status(
                        refused + ":bad_slot"@,
                    )
                    &&& k < state.slots.len() && slot.backend is Some && slot.session_id is Some
                        ==> routed(b, action) == RouteView::Backend(
                        slot.backend->0,
                        slot.session_id->0,
                    )
                    &&& k < state.slots.len() && !(slot.backend is Some && slot.session_id is Some)
                        ==> routed(b, action) == RouteView::Status(refused + ":empty_slot"@)
                },
            }
        }),
{
}

/// A backend's own words are the answer to an action; its failure is told with
/// the name of the action. Of several backends the last one answers.
pub proof fn lemma_answers_to_actions(
    tag: Seq<char>,
    s: Seq<char>,
    outcomes: Seq<Result<Seq<char>, Seq<char>>>,
)
    ensures
        outcome_status(tag, Ok(s)) == s,
        outcome_status(tag, Err(s)) == "error:"@ + tag + ":"@ + s,
        outcomes.len() == 0 ==> broadcast_status(outcomes) == "ok:stop_all:noop"@,
        outcomes.len() > 0 && outcomes.last() is Ok ==> broadcast_status(outcomes)
            == outcomes.last()->Ok_0,
        outcomes.len() > 0 && outcomes.last() is Err ==> broadcast_status(outcomes)
            == "error:"@ + "stop_all"@ + ":"@ + outcomes.last()->Err_0,
{
}

/// Moving the focus moves it to a key that there is and changes nothing else but
/// the frames.
pub proof fn lemma_focus_moves_alone(h: HostView, i: usize, now: u64)
    ensures
        ({
            let r = h.focused(i, now);
            &&& r.fade == h.fade
            &&& i < h.board.slot_count ==> r.board.focus == i
            &&& i >= h.board.slot_count ==> r.board.focus == h.board.focus
            &&& r.board == (BoardView { focus: r.board.focus, ..h.board }).refreshed(now)
        }),
{
}

/// Pinning a key changes the pin of that key, if there is such a key, and nothing
/// else but the frames; unpinning it forgets the pin.
pub proof fn lemma_pin_changes_one_key(
    h: HostView,
    i: usize,
    id: Option<Seq<char>>,
    now: u64,
    j: usize,
)
    ensures
        ({
            let r = h.pinned(i, id, now);
            &&& i >= h.board.slot_count ==> r == h
            &&& r.fade == h.fade
            &&& i < h.board.slot_count && id is Some ==> r.board.pins.contains_key(i)
                && r.board.pins[i] == id->0
            &&& i < h.board.slot_count && id is None ==> !r.board.pins.contains_key(i)
            &&& j != i ==> r.board.pins.contains_key(j) == h.board.pins.contains_key(j)
                && r.board.pins[j] == h.board.pins[j]
            &&& i < h.board.slot_count ==> r.board == (BoardView {
                pins: r.board.pins,
                ..h.board
            }).refreshed(now)
        }),
{
}

/// Replacing the pins, and turning the filling of keys on or off, does that and
/// changes nothing else but the frames.
pub proof fn lemma_pins_and_filling_change_alone(
    h: HostView,
    pins: Map<usize, Seq<char>>,
    enabled: bool,
    now: u64,
)
    ensures
        h.repinned(pins, now).fade == h.fade,
        h.repinned(pins, now).board == (BoardView { pins, ..h.board }).refreshed(now),
        h.filling(enabled, now).fade == h.fade,
        h.filling(enabled, now).board == (BoardView { auto_fill: enabled, ..h.board }).refreshed(
            now,
        ),
        h.refreshed(now).fade == h.fade,
        h.refreshed(now).board == h.board.refreshed(now),
{
}

/// Opening a session is remembered under that session, with its time, and
/// changes nothing else.
pub proof fn lemma_opening_is_remembered(
    h: HostView,
    backend: BackendId,
    id: Seq<char>,
    now: u64,
)
    ensures
        ({
            let r = h.opened(backend, id, now);
            &&& r.board == h.board
            &&& r.fade.after_open_ms == h.fade.after_open_ms
            &&& r.fade.unopened_ms == h.fade.unopened_ms
            &&& r.fade.opened == h.fade.opened.insert(backend.label() + ":"@ + id, now)
        }),
{
}

/// Recalling a session makes it known under its own backend, with Done faded,
/// and leaves all others as they are.
pub proof fn lemma_recall_makes_known(
    h: HostView,
    found: SnapshotView,
    now: u64,
    o: BackendId,
    id: Seq<char>,
)
    requires
        session_board::distinct(h.board.entries),
    ensures
        ({
            let r = h.recalled(found, now);
            let faded_to = h.fade.fade(found, now);
            &&& r.fade == h.fade
            &&& session_board::known(r.board.entries, found.backend, found.session_id) == Some(
                faded_to,
            )
            &&& !(o == found.backend && id == found.session_id) ==> session_board::known(
                r.board.entries,
                o,
                id,
            ) == session_board::known(h.board.entries, o, id)
            &&& r.board == (BoardView { entries: r.board.entries, ..h.board }).refreshed(now)
        }),
{
    let s = h.fade.fade(found, now);
    let e = session_board::EntryView { owner: s.backend, snapshot: s };
    session_board::lemma_upsert(h.board.entries, e);
    assert(session_board::keyed(e, o, id) == (o == found.backend && id == found.session_id));
}

/// Each observer's answer to a tick is filed under what that observer may be,
/// and is one that it may give; pinned sessions are asked of the same observer,
/// all of them.
pub proof fn lemma_tick_asks_each_observer(
    before: Seq<Box<dyn BackendObserver>>,
    pins: Map<usize, Seq<char>>,
    a: Seq<Answer>,
    j: int,
) -> (r: (Seq<Box<dyn BackendObserver>>, Seq<Seq<char>>))
    requires
        may_tick(before, pins, a),
        0 <= j < before.len(),
    ensures
        a.len() == before.len(),
        before[j].may_be(a[j].id),
        a[j].polled matches Some(s) ==> before[j].may_poll(Ok(s)),
        a[j].polled is None ==> a[j].pinned is None && exists|e: Seq<char>| #[trigger]
            before[j].may_poll(Err(e)),
        r.0[j].identity() == before[j].identity(),
        forall|id: Seq<char>|
            #![trigger r.1.contains(id)]
            r.1.contains(id) <==> exists|i: usize| #[trigger] pins.contains_key(i) && pins[i] == id,
        a[j].pinned matches Some(p) ==> r.1.len() > 0 && r.0[j].may_pin(r.1, Ok(p)),
        a[j].polled is Some && a[j].pinned is None && r.1.len() > 0 ==> exists|e: Seq<char>|
            #[trigger] r.0[j].may_pin(r.1, Err(e)),
{
    let (polled, ids) = choose|
        polled: Seq<Seq<Box<dyn BackendObserver>>>,
        ids: Seq<Seq<char>>,
    | #[trigger]
        may_give_all(before, polled, ids, a) && (forall|id: Seq<char>|
            session_board::pinned_session(pins, id) <==> #[trigger] ids.contains(id));
    assert(may_give(before, polled[j], j, ids, a[j]));
    assert(polled[j][j].identity() == before[j].identity());
    if a[j].polled is Some && a[j].pinned is None && ids.len() > 0 {
        let e = choose|e: Seq<char>| #[trigger] may_follow(polled[j], j, ids, Err(e));
        assert(polled[j][j].may_pin(ids, Err(e)));
    }
    (polled[j], ids)
}

/// The answer to an action for a backend is what the first observer of that
/// backend may make of that action on that session; it alone changes.
pub proof fn lemma_action_reaches_its_observer(
    before: Seq<Box<dyn BackendObserver>>,
    after: Seq<Box<dyn BackendObserver>>,
    k: int,
    backend: BackendId,
    session: Seq<char>,
    action: Action,
    reply: Seq<char>,
) -> (outcome: Result<Seq<char>, Seq<char>>)
    requires
        delivered(before, after, backend, session, action, reply),
        0 <= k < before.len(),
        forall|j: int| 0 <= j < k ==> !(#[trigger] before[j]).may_be(backend),
        forall|id: BackendId| before[k].may_be(id) ==> id == backend,
    ensures
        before[k].may_do_for(session, action, outcome),
        outcome matches Ok(s) ==> reply == s,
        outcome matches Err(e) ==> reply == "error:"@ + action.tag() + ":"@ + e,
        after.len() == before.len(),
        forall|j: int| 0 <= j < before.len() && j != k ==> #[trigger] after[j] == before[j],
{
    lemma_first_of_its_backend_answers(before, after, k, backend, session, action, reply);
    let o = choose|o: Result<Seq<char>, Seq<char>>| #[trigger]
        may_make_for(before, k, session, action, o) && reply == outcome_status(action.tag(), o);
    o
}

/// The catalog that is shown is that of answers which the observers, each asked
/// once for its own, may give.
pub proof fn lemma_catalog_asks_each_observer(
    before: Seq<Box<dyn BackendObserver>>,
    rows: Seq<InfoView>,
) -> (replies: Seq<Result<Seq<SnapshotView>, Seq<char>>>)
    requires
        may_catalog(before, rows),
    ensures
        replies.len() == before.len(),
        forall|j: int| 0 <= j < before.len() ==> before[j].may_list(#[trigger] replies[j]),
        rows == merged(given(replies)),
{
    choose|replies: Seq<Result<Seq<SnapshotView>, Seq<char>>>| #[trigger]
        may_answer(before, replies) && replies.len() == before.len() && rows == merged(
            given(replies),
        )
}

/// Stop-all is handed to every observer, and the last one's answer is the reply;
/// without observers there is nothing to stop.
pub proof fn lemma_stop_all_reaches_every_observer(
    b: BoardView,
    before: Seq<Box<dyn BackendObserver>>,
    after: Seq<Box<dyn BackendObserver>>,
    reply: Seq<char>,
) -> (outcomes: Seq<Result<Seq<char>, Seq<char>>>)
    requires
        replied(b, before, after, Action::StopAll, reply),
    ensures
        outcomes.len() == before.len(),
        forall|j: int|
            0 <= j < before.len() ==> before[j].may_do(Action::StopAll, #[trigger] outcomes[j]),
        before.len() == 0 ==> reply == "ok:stop_all:noop"@,
        before.len() > 0 && outcomes.last() is Ok ==> reply == outcomes.last()->Ok_0,
        before.len() > 0 && outcomes.last() is Err ==> reply == "error:"@ + "stop_all"@ + ":"@
            + outcomes.last()->Err_0,
{
    let o = choose|o: Seq<Result<Seq<char>, Seq<char>>>| #[trigger]
        may_make_all(before, Action::StopAll, o) && o.len() == before.len() && reply
            == broadcast_status(o);
    assert forall|j: int| 0 <= j < before.len() implies before[j].may_do(
        Action::StopAll,
        #[trigger] o[j],
    ) by {
        assert(may_make(before, j, Action::StopAll, o[j]));
    }
    o
}

/// An action that no backend takes is refused without asking any observer, and so
/// is any but stop-all while there is no board.
pub proof fn lemma_refused_action_asks_nobody(
    b: BoardView,
    before: Seq<Box<dyn BackendObserver>>,
    after: Seq<Box<dyn BackendObserver>>,
    action: Action,
    reply: Seq<char>,
)
    requires
        replied(b, before, after, action, reply),
    ensures
        action is Focus || action is Pin || action is FreezeAll || action is Unfreeze || action
            is SetMode ==> reply == "unsupported:"@ + action.tag() && after == before,
        b.board is None && !(action is StopAll) ==> after == before,
{
}

/// An action on a session is delivered to the backend of the session that the key
/// shows, together with that session's id.
pub proof fn lemma_action_is_delivered_to_its_backend(
    b: BoardView,
    before: Seq<Box<dyn BackendObserver>>,
    after: Seq<Box<dyn BackendObserver>>,
    action: Action,
    reply: Seq<char>,
    k: int,
)
    requires
        replied(b, before, after, action, reply),
        action == (Action::Stop { i: Some(k as usize) }) || action == (Action::Accept {
            i: Some(k as usize),
        }) || action == (Action::Reject { i: Some(k as usize) }),
        b.board is Some,
        0 <= k < b.board->0.slots.len(),
        k <= usize::MAX,
        b.board->0.slots[k].backend is Some,
        b.board->0.slots[k].session_id is Some,
    ensures
        delivered(
            before,
            after,
            b.board->0.slots[k].backend->0,
            b.board->0.slots[k].session_id->0,
            action,
            reply,
        ),
{
}

/// A session is looked for in one catalog after the other, up to the first that
/// lists it; the observers behind that one are not asked. What is found has the id
/// that was looked for. Without a catalog that lists it, all were asked.
pub proof fn lemma_search_ends_with_the_first_find(
    before: Seq<Box<dyn BackendObserver>>,
    after: Seq<Box<dyn BackendObserver>>,
    id: Seq<char>,
    found: Option<SnapshotView>,
) -> (replies: Seq<Result<Seq<SnapshotView>, Seq<char>>>)
    requires
        may_find(before, after, id, found),
    ensures
        replies.len() <= before.len(),
        forall|j: int| 0 <= j < replies.len() ==> before[j].may_list(#[trigger] replies[j]),
        forall|j: int| replies.len() <= j < before.len() ==> #[trigger] after[j] == before[j],
        found is None ==> replies.len() == before.len(),
        found is Some ==> replies.len() > 0 && replies.last() is Ok
            && replies.last()->Ok_0.contains(found->0) && found->0.session_id == id,
        forall|j: int, k: int|
            #![trigger replies[j]->Ok_0[k]]
            0 <= j < replies.len() && (found is Some ==> j < replies.len() - 1) && replies[j] is Ok
                && 0 <= k < replies[j]->Ok_0.len() ==> replies[j]->Ok_0[k].session_id != id,
{
    let replies = choose|replies: Seq<Result<Seq<SnapshotView>, Seq<char>>>| #[trigger]
        may_answer(before, replies) && (forall|j: int|
            replies.len() <= j < before.len() ==> #[trigger] after[j] == before[j]) && (
        match found {
            Some(s) => replies.len() > 0 && none_lists(replies.drop_last(), id) && found_in(
                replies.last(),
                id,
            ) == Some(s),
            None => replies.len() == before.len() && none_lists(replies, id),
        });
    assert forall|j: int, k: int|
        #![trigger replies[j]->Ok_0[k]]
        0 <= j < replies.len() && (found is Some ==> j < replies.len() - 1) && replies[j] is Ok
            && 0 <= k < replies[j]->Ok_0.len() implies replies[j]->Ok_0[k].session_id != id by {
        if found is Some {
            assert(replies.drop_last()[j] == replies[j]);
        }
        assert(found_in(replies[j], id) is None);
        lemma_find_tells_what_is_listed(replies[j]->Ok_0, id);
    }
    if found is Some {
        lemma_find_tells_what_is_listed(replies.last()->Ok_0, id);
    }
    replies
}

proof fn lemma_find_tells_what_is_listed(s: Seq<SnapshotView>, id: Seq<char>)
    ensures
        first_in(s, id) is None ==> forall|k: int|
            0 <= k < s.len() ==> (#[trigger] s[k]).session_id != id,
        first_in(s, id) matches Some(x) ==> s.contains(x) && x.session_id == id,
    decreases s.len(),
{
    if s.len() > 0 {
        let t = s.drop_last();
        lemma_find_tells_what_is_listed(t, id);
        if first_in(s, id) is None {
            assert forall|k: int| 0 <= k < s.len() implies (#[trigger] s[k]).session_id != id by {
                if k < t.len() {
                    assert(t[k].session_id != id);
                }
            }
        } else if first_in(t, id) is Some {
            let k = choose|k: int| 0 <= k < t.len() && t[k] == first_in(t, id)->0;
            assert(s[k] == t[k]);
        } else {
            assert(s[s.len() - 1].session_id == id);
        }
    }
}

/// A session is looked for only where one is to be bound that the board does not
/// know; else no observer is asked.
pub proof fn lemma_known_session_is_not_looked_for(
    b: BoardView,
    before: Seq<Box<dyn BackendObserver>>,
    after: Seq<Box<dyn BackendObserver>>,
    id: Option<Seq<char>>,
    found: Option<SnapshotView>,
    k: int,
)
    requires
        looked_up(b, before, after, id, found),
    ensures
        id is None ==> found is None && after == before,
        (id matches Some(x) && 0 <= k < b.entries.len() && b.entries[k].snapshot.session_id == x)
            ==> found is None && after == before,
        (id matches Some(x) && forall|j: int|
            0 <= j < b.entries.len() ==> (#[trigger] b.entries[j]).snapshot.session_id != x)
            ==> may_find(before, after, id->0, found),
{
    if id is Some {
        let x = id->0;
        if 0 <= k < b.entries.len() && b.entries[k].snapshot.session_id == x {
            lemma_listed_entry_is_known(b.entries, x, k);
        }
        if forall|j: int|
            0 <= j < b.entries.len() ==> (#[trigger] b.entries[j]).snapshot.session_id != x {
            session_board::lemma_first_entry_is_found(b.entries, x, b.entries.len() as int);
        }
    }
}

proof fn lemma_listed_entry_is_known(s: Seq<session_board::EntryView>, id: Seq<char>, k: int)
    requires
        0 <= k < s.len(),
        s[k].snapshot.session_id == id,
    ensures
        session_board::first_with_id(s, id) is Some,
    decreases s.len(),
{
    if k < s.len() - 1 {
        lemma_listed_entry_is_known(s.drop_last(), id, k);
    }
}

} // verus!
