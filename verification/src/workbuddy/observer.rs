//! The WorkBuddy observer: which of the sessions found on disk show on the
//! board, in the bind picker and on pinned keys, and in what state.
use crate::lists;
use crate::ordering;
use crate::ordering::Rank;
use crate::protocol;
use crate::protocol::{SessionSnapshot, SnapshotView};
use crate::selection;
use crate::text;
use crate::text_map::TextMap;
use crate::workbuddy::db_meta;
use crate::workbuddy::db_meta::{
    classify_workspace, is_archived, is_claw_workspace, preferred_title, MetaView, SessionMeta,
};
use crate::workbuddy::mapper;
use crate::workbuddy::mapper::{aggregate, map_session, EventView, SessionEvent};
use vstd::prelude::*;

verus! {

/// Why the observer could not be opened.
#[derive(Debug, PartialEq)]
pub enum ObserverError {
    /// There is no tree of session logs at this path.
    MissingTree(String),
}

/// Where the observer looks, and how much it shows.
#[derive(Debug, Clone)]
pub struct JsonlObserverOptions {
    /// Root of the session logs.
    pub projects_dir: String,
    /// WorkBuddy's database. Without it the logs alone count.
    pub db_path: String,
    pub exclude_workspaces: Vec<String>,
    pub exclude_task_ids: Vec<String>,
    /// Fail when the logs are missing, instead of showing nothing.
    pub fail_on_missing: bool,
    pub max_sessions: usize,
    pub catalog_max_sessions: usize,
}

impl JsonlObserverOptions {
    /// The usual options for a home directory.
    pub fn for_home(home: &str) -> (r: JsonlObserverOptions)
        ensures
            r.projects_dir@ == protocol::joined(home@, ".workbuddy/projects"@),
            r.db_path@ == protocol::joined(home@, ".workbuddy/workbuddy.db"@),
            r.exclude_workspaces@.len() == 0,
            r.exclude_task_ids@.len() == 0,
            !r.fail_on_missing,
            r.max_sessions == 20,
            r.catalog_max_sessions == 500,
    {
        JsonlObserverOptions {
            projects_dir: protocol::join_path(home, ".workbuddy/projects"),
            db_path: protocol::join_path(home, ".workbuddy/workbuddy.db"),
            exclude_workspaces: Vec::new(),
            exclude_task_ids: Vec::new(),
            fail_on_missing: false,
            max_sessions: 20,
            catalog_max_sessions: 500,
        }
    }
}

/// The session whose log a file is, by the file's name.
pub open spec fn log_of(name: Seq<char>) -> Option<Seq<char>> {
    if text::ends(name, ".jsonl"@) && name.len() > 6 {
        Some(name.take(name.len() - 6))
    } else {
        None
    }
}

/// The session whose log a file is, by the file's name; None for other files.
pub fn session_of_file(name: &str) -> (r: Option<String>)
    ensures
        text::opt(r) == log_of(name@),
{
    proof {
        reveal_strlit(".jsonl");
    }
    let v = text::chars_of(name);
    if v.len() > 6 && text::ends_with(name, ".jsonl") {
        Some(text::text_of(&v, 0, v.len() - 6))
    } else {
        None
    }
}

/// One session log: the events that could be read, and when the file was last written.
#[derive(Debug)]
pub struct SessionFile {
    pub session_id: String,
    pub events: Vec<SessionEvent>,
    pub mtime_ms: Option<u64>,
}

/// The content of a `SessionFile`.
#[verifier::ext_equal]
pub struct FileView {
    pub session_id: Seq<char>,
    pub events: Seq<EventView>,
    pub mtime_ms: Option<u64>,
}

impl View for SessionFile {
    type V = FileView;

    open spec fn view(&self) -> FileView {
        FileView {
            session_id: self.session_id@,
            events: mapper::event_views(self.events@),
            mtime_ms: self.mtime_ms,
        }
    }
}

/// What was found on disk: the session logs and the data of the database.
#[derive(Debug)]
pub struct Scan {
    pub files: Vec<SessionFile>,
    pub meta: TextMap<SessionMeta>,
    pub automations: TextMap<String>,
    pub deleted: Vec<String>,
}

/// The content of a `Scan`.
#[verifier::ext_equal]
pub struct ScanView {
    pub files: Seq<FileView>,
    pub meta: Map<Seq<char>, MetaView>,
    pub automations: Map<Seq<char>, Seq<char>>,
    pub deleted: Seq<Seq<char>>,
}

impl View for Scan {
    type V = ScanView;

    open spec fn view(&self) -> ScanView {
        ScanView {
            files: self.files@.map_values(|f: SessionFile| f@),
            meta: db_meta::meta_views(self.meta@),
            automations: db_meta::name_views(self.automations@),
            deleted: text::texts(self.deleted@),
        }
    }
}

impl ScanView {
    /// The database's data of a session.
    pub open spec fn meta_of(self, id: Seq<char>) -> Option<MetaView> {
        if self.meta.contains_key(id) {
            Some(self.meta[id])
        } else {
            None
        }
    }

    /// A session as its log has it, with the title, the folder and the grouping
    /// that the database gives it.
    pub open spec fn overlaid(self, f: FileView, now: u64) -> SnapshotView {
        let g = mapper::signals_of(
            f.events,
            mapper::approvals_of(f.events),
            f.session_id,
            f.mtime_ms,
        );
        let s = mapper::snapshot_with(g, now, mapper::risk_of(g.detail));
        self.regrouped(f.session_id, s)
    }

    /// A snapshot with the title, the folder and the grouping of the database.
    pub open spec fn regrouped(self, id: Seq<char>, s: SnapshotView) -> SnapshotView {
        let meta = self.meta_of(id);
        let title = match meta {
            Some(m) => match db_meta::chosen_title(m) {
                Some(t) => t,
                None => s.title,
            },
            None => s.title,
        };
        let place = match (s.workspace_path, meta) {
            (None, Some(m)) => m.cwd,
            (p, _) => p,
        };
        let (category, label) = db_meta::grouping(place, meta, self.automations, title);
        SnapshotView {
            title,
            workspace_path: place,
            project_category: Some(category),
            project_label: Some(label),
            ..s
        }
    }

    /// The session is hidden: deleted, archived, or its log has no events.
    pub open spec fn hidden(self, f: FileView) -> bool {
        ||| self.deleted.contains(f.session_id)
        ||| self.meta_of(f.session_id) matches Some(m) && db_meta::archived(m)
        ||| f.events.len() == 0
    }

    /// What is shown of a log, if anything. The database decides on the time of
    /// the last update, and Claw is kept out.
    pub open spec fn shown(self, f: FileView, now: u64) -> Option<SnapshotView> {
        let s = self.overlaid(f, now);
        if self.hidden(f) || db_meta::claw(s.workspace_path) {
            None
        } else {
            Some(
                SnapshotView {
                    updated_at: match self.meta_of(f.session_id) {
                        Some(m) => match m.updated_at {
                            Some(t) => t,
                            None => s.updated_at,
                        },
                        None => s.updated_at,
                    },
                    ..s
                },
            )
        }
    }

    /// What is shown of the first `n` logs.
    pub open spec fn shown_upto(self, now: u64, n: int) -> Seq<SnapshotView>
        decreases n,
    {
        if n <= 0 {
            Seq::empty()
        } else {
            let t = self.shown_upto(now, n - 1);
            match self.shown(self.files[n - 1], now) {
                Some(s) => t.push(s),
                None => t,
            }
        }
    }

    /// What is shown of all logs.
    pub open spec fn all_shown(self, now: u64) -> Seq<SnapshotView> {
        self.shown_upto(now, self.files.len() as int)
    }
}

/// Newest first.
pub open spec fn by_time(s: SnapshotView) -> Rank {
    Rank { first: s.updated_at, second: 0, third: 0 }
}

/// The newest `limit` sessions, without the excluded ones among them.
pub open spec fn newest_shown(
    all: Seq<SnapshotView>,
    limit: int,
    ids: Seq<Seq<char>>,
    workspaces: Seq<Seq<char>>,
) -> Seq<SnapshotView> {
    let sorted = ordering::ranked(all, |s: SnapshotView| by_time(s));
    sorted.take(
        if limit < sorted.len() {
            limit
        } else {
            sorted.len() as int
        },
    ).filter(|s: SnapshotView| !selection::excluded(s, ids, workspaces))
}

/// The sessions in order of their last update, the newest first.
fn newest_first(all: &Vec<SessionSnapshot>) -> (r: Vec<SessionSnapshot>)
    ensures
        protocol::snapshots(r@) == ordering::ranked(
            protocol::snapshots(all@),
            |s: SnapshotView| by_time(s),
        ),
{
    let ghost key = |s: SnapshotView| by_time(s);
    let ghost views = protocol::snapshots(all@);
    let mut ranks: Vec<Rank> = Vec::new();
    let mut i: usize = 0;
    while i < all.len()
        invariant
            i <= all@.len(),
            ranks@.len() == i,
            forall|j: int| 0 <= j < i ==> #[trigger] ranks@[j] == by_time(all@[j]@),
        decreases all@.len() - i,
    {
        ranks.push(Rank { first: all[i].updated_at, second: 0, third: 0 });
        i = i + 1;
    }
    assert(ranks@ =~= views.map_values(key));
    let p = ordering::order(&ranks);
    let ghost order = ordering::as_ints(p@);
    assert forall|b: int| 0 <= b < p@.len() implies 0 <= #[trigger] p@[b] < all@.len() by {
        assert(0 <= order[b] < ranks@.len());
    }
    let mut out: Vec<SessionSnapshot> = Vec::new();
    let mut a: usize = 0;
    while a < p.len()
        invariant
            a <= p@.len(),
            out@.len() == a,
            forall|b: int| 0 <= b < p@.len() ==> 0 <= #[trigger] p@[b] < all@.len(),
            forall|b: int| 0 <= b < a ==> #[trigger] out@[b] == all@[p@[b] as int],
        decreases p@.len() - a,
    {
        out.push(all[p[a]].clone());
        a = a + 1;
    }
    assert(protocol::snapshots(out@) =~= ordering::pick(views, order));
    out
}

/// The newest `limit` sessions, without the excluded ones among them.
fn select(
    all: &Vec<SessionSnapshot>,
    limit: usize,
    ids: &Vec<String>,
    workspaces: &Vec<String>,
) -> (r: Vec<SessionSnapshot>)
    ensures
        protocol::snapshots(r@) == newest_shown(
            protocol::snapshots(all@),
            limit as int,
            text::texts(ids@),
            text::texts(workspaces@),
        ),
{
    let mut sorted = newest_first(all);
    let ghost full = protocol::snapshots(sorted@);
    sorted.truncate(limit);
    let ghost views = protocol::snapshots(sorted@);
    assert(views =~= full.take(
        if limit < full.len() {
            limit as int
        } else {
            full.len() as int
        },
    ));
    let ghost keep = |s: SnapshotView|
        !selection::excluded(s, text::texts(ids@), text::texts(workspaces@));
    let mut out: Vec<SessionSnapshot> = Vec::new();
    let mut i: usize = 0;
    proof {
        lists::lemma_filter_none(views, keep);
        assert(protocol::snapshots(out@) =~= Seq::<SnapshotView>::empty());
    }
    while i < sorted.len()
        invariant
            i <= sorted@.len(),
            views == protocol::snapshots(sorted@),
            keep == (|s: SnapshotView|
                !selection::excluded(s, text::texts(ids@), text::texts(workspaces@))),
            protocol::snapshots(out@) == views.take(i as int).filter(keep),
        decreases sorted@.len() - i,
    {
        proof {
            lists::lemma_filter_next(views, keep, i as int);
        }
        if !selection::session_excluded(&sorted[i], ids, workspaces) {
            let ghost had = out@;
            out.push(sorted[i].clone());
            assert(protocol::snapshots(out@) =~= protocol::snapshots(had).push(views[i as int]));
        }
        i = i + 1;
    }
    assert(views.take(i as int) == views);
    out
}

/// A session as its log has it, with what the database adds; None when the log
/// has no events.
fn read_session(scan: &Scan, file: &SessionFile, now: u64) -> (r: Option<SessionSnapshot>)
    ensures
        (match r {
            Some(s) => Some(s@),
            None => None,
        }) == (if file@.events.len() == 0 {
            None
        } else {
            Some(scan@.overlaid(file@, now))
        }),
{
    if file.events.len() == 0 {
        return None;
    }
    let signals = aggregate(file.events.as_slice(), file.session_id.as_str(), file.mtime_ms);
    let mut snap = map_session(&signals, now);
    let found = scan.meta.get(file.session_id.as_str());
    if let Some(m) = found {
        if let Some(t) = preferred_title(m) {
            snap.title = t;
        }
        if snap.workspace_path.is_none() {
            snap.workspace_path = text::clone_opt(&m.cwd);
        }
    }
    let (category, label) = classify_workspace(
        match &snap.workspace_path {
            Some(p) => Some(p.as_str()),
            None => None,
        },
        found,
        &scan.automations,
        snap.title.as_str(),
    );
    snap.project_category = Some(category);
    snap.project_label = Some(label);
    Some(snap)
}

/// The observer's own state.
pub struct JsonlObserver {
    opts: JsonlObserverOptions,
    available: bool,
    last_snapshots: Vec<SessionSnapshot>,
}

/// The content of a `JsonlObserver`.
#[verifier::ext_equal]
pub struct ObserverView {
    pub fail_on_missing: bool,
    pub projects_dir: Seq<char>,
    pub db_path: Seq<char>,
    pub max_sessions: int,
    pub catalog_max_sessions: int,
    pub exclude_workspaces: Seq<Seq<char>>,
    pub exclude_task_ids: Seq<Seq<char>>,
    pub available: bool,
    pub last: Seq<SnapshotView>,
}

impl View for JsonlObserver {
    type V = ObserverView;

    closed spec fn view(&self) -> ObserverView {
        ObserverView {
            fail_on_missing: self.opts.fail_on_missing,
            projects_dir: self.opts.projects_dir@,
            db_path: self.opts.db_path@,
            max_sessions: self.opts.max_sessions as int,
            catalog_max_sessions: self.opts.catalog_max_sessions as int,
            exclude_workspaces: text::texts(self.opts.exclude_workspaces@),
            exclude_task_ids: text::texts(self.opts.exclude_task_ids@),
            available: self.available,
            last: protocol::snapshots(self.last_snapshots@),
        }
    }
}

impl ObserverView {
    /// What a scan shows: nothing as long as the logs are missing.
    pub open spec fn seen(self, scan: ScanView, now: u64) -> Seq<SnapshotView> {
        if self.available {
            scan.all_shown(now)
        } else {
            Seq::empty()
        }
    }

    /// What shows on the board.
    pub open spec fn polled(self, scan: ScanView, now: u64) -> Seq<SnapshotView> {
        newest_shown(
            self.seen(scan, now),
            self.max_sessions,
            self.exclude_task_ids,
            self.exclude_workspaces,
        )
    }

    /// What shows in the bind picker.
    pub open spec fn cataloged(self, scan: ScanView, now: u64) -> Seq<SnapshotView> {
        newest_shown(
            self.seen(scan, now),
            self.catalog_max_sessions,
            self.exclude_task_ids,
            self.exclude_workspaces,
        )
    }

    /// The observer after the logs were found or not; a failure leaves it as it is.
    pub open spec fn opened(self, tree_exists: bool) -> ObserverView {
        if !tree_exists && self.fail_on_missing {
            self
        } else {
            ObserverView { available: tree_exists, ..self }
        }
    }

    /// The observer after one more attempt to find the logs, if it has not yet.
    pub open spec fn retried(self, tree_exists: bool) -> ObserverView {
        if self.available {
            self
        } else {
            self.opened(tree_exists)
        }
    }
}

impl JsonlObserver {
    /// An observer that has not looked for its logs yet.
    pub fn new(opts: JsonlObserverOptions) -> (r: JsonlObserver)
        ensures
            r@ == (ObserverView {
                fail_on_missing: opts.fail_on_missing,
                projects_dir: opts.projects_dir@,
                db_path: opts.db_path@,
                max_sessions: opts.max_sessions as int,
                catalog_max_sessions: opts.catalog_max_sessions as int,
                exclude_workspaces: text::texts(opts.exclude_workspaces@),
                exclude_task_ids: text::texts(opts.exclude_task_ids@),
                available: false,
                last: Seq::empty(),
            }),
    {
        let r = JsonlObserver { opts, available: false, last_snapshots: Vec::new() };
        assert(r@.last =~= Seq::empty());
        r
    }

    /// The options.
    pub fn options(&self) -> (r: &JsonlObserverOptions)
        ensures
            r.projects_dir@ == self@.projects_dir,
            r.db_path@ == self@.db_path,
            r.fail_on_missing == self@.fail_on_missing,
            r.max_sessions == self@.max_sessions,
            r.catalog_max_sessions == self@.catalog_max_sessions,
            text::texts(r.exclude_workspaces@) == self@.exclude_workspaces,
            text::texts(r.exclude_task_ids@) == self@.exclude_task_ids,
    {
        &self.opts
    }

    /// Whether the logs were found.
    pub fn is_available(&self) -> (r: bool)
        ensures
            r == self@.available,
    {
        self.available
    }

    /// Takes note of whether the logs are there. Missing logs are an error only
    /// if the options ask for it.
    pub fn open(&mut self, tree_exists: bool) -> (r: Result<(), ObserverError>)
        ensures
            final(self)@ == old(self)@.opened(tree_exists),
            match r {
                Ok(_) => tree_exists || !old(self)@.fail_on_missing,
                Err(ObserverError::MissingTree(p)) => !tree_exists && old(self)@.fail_on_missing
                    && p@ == old(self)@.projects_dir,
            },
    {
        if tree_exists {
            self.available = true;
            return Ok(());
        }
        if self.opts.fail_on_missing {
            return Err(ObserverError::MissingTree(self.opts.projects_dir.clone()));
        }
        self.available = false;
        Ok(())
    }

    /// What the last poll showed.
    pub fn last_snapshots(&self) -> (r: &Vec<SessionSnapshot>)
        ensures
            protocol::snapshots(r@) == self@.last,
    {
        &self.last_snapshots
    }

    /// What a scan shows: nothing as long as the logs are missing.
    fn scan_all(&self, scan: &Scan, now: u64) -> (r: Vec<SessionSnapshot>)
        ensures
            protocol::snapshots(r@) == self@.seen(scan@, now),
    {
        let ghost view = scan@;
        let mut snaps: Vec<SessionSnapshot> = Vec::new();
        assert(protocol::snapshots(snaps@) =~= Seq::<SnapshotView>::empty());
        if !self.available {
            return snaps;
        }
        let mut i: usize = 0;
        while i < scan.files.len()
            invariant
                i <= scan.files@.len(),
                view == scan@,
                protocol::snapshots(snaps@) == view.shown_upto(now, i as int),
            decreases scan.files@.len() - i,
        {
            let file = &scan.files[i];
            let ghost f = file@;
            let ghost had = snaps@;
            assert(view.files[i as int] == f);
            let found = scan.meta.get(file.session_id.as_str());
            assert((match found {
                Some(m) => Some(m@),
                None => None,
            }) == view.meta_of(f.session_id));
            let archived: bool = match found {
                Some(m) => is_archived(m),
                None => false,
            };
            if !text::lists_id(scan.deleted.as_slice(), file.session_id.as_str()) && !archived {
                if let Some(mut snap) = read_session(scan, file, now) {
                    let claw: bool = is_claw_workspace(
                        match &snap.workspace_path {
                            Some(p) => Some(p.as_str()),
                            None => None,
                        },
                    );
                    if !claw {
                        if let Some(m) = found {
                            if let Some(t) = m.updated_at {
                                snap.updated_at = t;
                            }
                        }
                        assert(view.shown(f, now) == Some(snap@));
                        snaps.push(snap);
                        assert(protocol::snapshots(snaps@) =~= protocol::snapshots(had).push(
                            snap@,
                        ));
                    }
                }
            }
            i = i + 1;
        }
        snaps
    }

    /// What shows on the board: the newest sessions, without the excluded ones.
    pub fn poll_once(&mut self, scan: &Scan, now: u64) -> (r: Vec<SessionSnapshot>)
        ensures
            protocol::snapshots(r@) == old(self)@.polled(scan@, now),
            final(self)@ == (ObserverView {
                last: old(self)@.polled(scan@, now),
                ..old(self)@
            }),
    {
        let all = self.scan_all(scan, now);
        let snaps = select(
            &all,
            self.opts.max_sessions,
            &self.opts.exclude_task_ids,
            &self.opts.exclude_workspaces,
        );
        self.last_snapshots = protocol::clone_snapshots(&snaps);
        snaps
    }

    /// What shows in the bind picker: the same with a longer history. Looks for
    /// the logs again if they were missing.
    pub fn catalog_once(&mut self, tree_exists: bool, scan: &Scan, now: u64) -> (r: Vec<
        SessionSnapshot,
    >)
        ensures
            final(self)@ == old(self)@.retried(tree_exists),
            protocol::snapshots(r@) == final(self)@.cataloged(scan@, now),
    {
        if !self.available {
            let _ = self.open(tree_exists);
        }
        let all = self.scan_all(scan, now);
        select(
            &all,
            self.opts.catalog_max_sessions,
            &self.opts.exclude_task_ids,
            &self.opts.exclude_workspaces,
        )
    }

    /// The latest state of these sessions, however old they are. Looks for the
    /// logs again if they were missing.
    pub fn poll_pinned_once(
        &mut self,
        ids: &[String],
        tree_exists: bool,
        scan: &Scan,
        now: u64,
    ) -> (r: Vec<SessionSnapshot>)
        ensures
            final(self)@ == (if ids@.len() == 0 {
                old(self)@
            } else {
                old(self)@.retried(tree_exists)
            }),
            protocol::snapshots(r@) == (if ids@.len() == 0 {
                Seq::empty()
            } else {
                selection::with_ids(final(self)@.seen(scan@, now), text::texts(ids@))
            }),
    {
        if ids.len() == 0 {
            let r: Vec<SessionSnapshot> = Vec::new();
            assert(protocol::snapshots(r@) =~= Seq::<SnapshotView>::empty());
            return r;
        }
        if !self.available {
            let _ = self.open(tree_exists);
        }
        let all = self.scan_all(scan, now);
        selection::keep_ids(&all, ids)
    }
}

/// Only logs that are not hidden, and not Claw's, are shown, each in the state
/// of its own log.
pub proof fn lemma_only_visible_logs_show(scan: ScanView, now: u64, n: int, a: int)
    requires
        0 <= n <= scan.files.len(),
        0 <= a < scan.shown_upto(now, n).len(),
    ensures
        exists|i: int|
            0 <= i < n && scan.shown(#[trigger] scan.files[i], now) == Some(
                scan.shown_upto(now, n)[a],
            ) && !scan.hidden(scan.files[i]),
        !db_meta::claw(scan.shown_upto(now, n)[a].workspace_path),
    decreases n,
{
    let t = scan.shown_upto(now, n - 1);
    if a < t.len() {
        lemma_only_visible_logs_show(scan, now, n - 1, a);
        let i = choose|i: int|
            0 <= i < n - 1 && scan.shown(#[trigger] scan.files[i], now) == Some(t[a])
                && !scan.hidden(scan.files[i]);
        assert(scan.shown(scan.files[i], now) == Some(scan.shown_upto(now, n)[a]));
    } else {
        assert(scan.shown(scan.files[n - 1], now) == Some(scan.shown_upto(now, n)[a]));
    }
}

proof fn lemma_take_filter<T>(s: Seq<T>, keep: spec_fn(T) -> bool, m: int, n: int, x: T)
    requires
        0 <= m <= n <= s.len(),
        s.take(m).filter(keep).contains(x),
    ensures
        s.take(n).filter(keep).contains(x),
{
    lists::lemma_filter_contains(s.take(m), keep);
    lists::lemma_filter_contains(s.take(n), keep);
    assert(s.take(m).contains(x));
    let i = choose|i: int| 0 <= i < m && s.take(m)[i] == x;
    assert(s.take(n)[i] == x);
    assert(s.take(n).contains(x));
}

/// Whatever shows on the board can be found in the bind picker, as long as the
/// picker's history is at least as long.
pub proof fn lemma_catalog_covers_poll(o: ObserverView, scan: ScanView, now: u64, x: SnapshotView)
    requires
        0 <= o.max_sessions <= o.catalog_max_sessions,
        o.polled(scan, now).contains(x),
    ensures
        o.cataloged(scan, now).contains(x),
{
    let keep = |s: SnapshotView| !selection::excluded(s, o.exclude_task_ids, o.exclude_workspaces);
    let sorted = ordering::ranked(o.seen(scan, now), |s: SnapshotView| by_time(s));
    let m = if o.max_sessions < sorted.len() {
        o.max_sessions
    } else {
        sorted.len() as int
    };
    let n = if o.catalog_max_sessions < sorted.len() {
        o.catalog_max_sessions
    } else {
        sorted.len() as int
    };
    assert(o.polled(scan, now) == sorted.take(m).filter(keep));
    assert(o.cataloged(scan, now) == sorted.take(n).filter(keep));
    lemma_take_filter(sorted, keep, m, n, x);
}

/// Excluded sessions show neither on the board nor in the bind picker.
pub proof fn lemma_excluded_sessions_do_not_show(
    o: ObserverView,
    scan: ScanView,
    now: u64,
    x: SnapshotView,
)
    requires
        selection::excluded(x, o.exclude_task_ids, o.exclude_workspaces),
    ensures
        !o.polled(scan, now).contains(x),
        !o.cataloged(scan, now).contains(x),
{
    let keep = |s: SnapshotView| !selection::excluded(s, o.exclude_task_ids, o.exclude_workspaces);
    let sorted = ordering::ranked(o.seen(scan, now), |s: SnapshotView| by_time(s));
    let m = if o.max_sessions < sorted.len() {
        o.max_sessions
    } else {
        sorted.len() as int
    };
    let n = if o.catalog_max_sessions < sorted.len() {
        o.catalog_max_sessions
    } else {
        sorted.len() as int
    };
    lists::lemma_filter_contains(sorted.take(m), keep);
    lists::lemma_filter_contains(sorted.take(n), keep);
    assert(o.polled(scan, now) == sorted.take(m).filter(keep));
    assert(o.cataloged(scan, now) == sorted.take(n).filter(keep));
}

/// The newest come first.
pub open spec fn in_order(s: Seq<SnapshotView>) -> bool {
    forall|a: int, b: int|
        0 <= a < b < s.len() ==> (#[trigger] s[a]).updated_at >= (#[trigger] s[b]).updated_at
}

proof fn lemma_filter_keeps_order(s: Seq<SnapshotView>, keep: spec_fn(SnapshotView) -> bool)
    requires
        in_order(s),
    ensures
        in_order(s.filter(keep)),
    decreases s.len(),
{
    reveal(Seq::filter);
    if s.len() > 0 {
        let t = s.drop_last();
        lemma_filter_keeps_order(t, keep);
        lists::lemma_filter_contains(t, keep);
        let f = t.filter(keep);
        let g = s.filter(keep);
        assert forall|a: int, b: int| 0 <= a < b < g.len() implies (#[trigger] g[a]).updated_at >= (
        #[trigger] g[b]).updated_at by {
            if b < f.len() {
                assert(g[a] == f[a] && g[b] == f[b]);
            } else {
                assert(f.contains(f[a]));
                let i = choose|i: int| 0 <= i < t.len() && t[i] == f[a];
                assert(s[i] == g[a] && s[s.len() - 1] == g[b]);
            }
        }
    }
}

/// The bind picker lists no fewer sessions than the board shows, as long as its
/// history is at least as long. Neither lists more than its history holds, and
/// in both the newest come first.
pub proof fn lemma_catalog_is_no_shorter(o: ObserverView, scan: ScanView, now: u64)
    requires
        0 <= o.max_sessions <= o.catalog_max_sessions,
    ensures
        o.polled(scan, now).len() <= o.cataloged(scan, now).len(),
        o.polled(scan, now).len() <= o.max_sessions,
        o.cataloged(scan, now).len() <= o.catalog_max_sessions,
        in_order(o.polled(scan, now)),
        in_order(o.cataloged(scan, now)),
{
    let keep = |s: SnapshotView| !selection::excluded(s, o.exclude_task_ids, o.exclude_workspaces);
    let time = |s: SnapshotView| by_time(s);
    let sorted = ordering::ranked(o.seen(scan, now), time);
    let m = if o.max_sessions < sorted.len() {
        o.max_sessions
    } else {
        sorted.len() as int
    };
    let n = if o.catalog_max_sessions < sorted.len() {
        o.catalog_max_sessions
    } else {
        sorted.len() as int
    };
    ordering::lemma_ranked(o.seen(scan, now), time);
    assert(in_order(sorted)) by {
        assert forall|a: int, b: int| 0 <= a < b < sorted.len() implies (
        #[trigger] sorted[a]).updated_at >= (#[trigger] sorted[b]).updated_at by {
            assert(!ordering::above(time(sorted[b]), time(sorted[a])));
        }
    }
    lemma_filter_keeps_order(sorted.take(m), keep);
    lemma_filter_keeps_order(sorted.take(n), keep);
    sorted.take(m).lemma_filter_len(keep);
    sorted.take(n).lemma_filter_len(keep);
    let more = sorted.subrange(m, n);
    assert(sorted.take(m) + more == sorted.take(n));
    Seq::filter_distributes_over_add(sorted.take(m), more, keep);
    assert(o.polled(scan, now) == sorted.take(m).filter(keep));
    assert(o.cataloged(scan, now) == sorted.take(n).filter(keep));
}

impl ScanView {
    /// The time of each session that is shown is the same at both moments.
    pub open spec fn steady(self, t1: u64, t2: u64) -> bool {
        forall|i: int|
            0 <= i < self.files.len() && self.shown(#[trigger] self.files[i], t1) is Some
                ==> self.shown(self.files[i], t1)->0.updated_at == self.shown(
                self.files[i],
                t2,
            )->0.updated_at
    }
}

/// As long as no session changes its status, or the database tells the time of
/// those that do, the times of the sessions stay the same.
pub proof fn lemma_same_status_same_time(scan: ScanView, t1: u64, t2: u64)
    requires
        forall|i: int|
            0 <= i < scan.files.len() ==> {
                let f = #[trigger] scan.files[i];
                let g = mapper::signals_of(
                    f.events,
                    mapper::approvals_of(f.events),
                    f.session_id,
                    f.mtime_ms,
                );
                ||| g.status(t1) == g.status(t2)
                ||| scan.meta_of(f.session_id) matches Some(m) && m.updated_at is Some
            },
    ensures
        scan.steady(t1, t2),
{
}

/// The two lists tell of the same sessions with the same times, one by one.
spec fn alike(a: Seq<SnapshotView>, b: Seq<SnapshotView>) -> bool {
    &&& a.len() == b.len()
    &&& forall|i: int|
        0 <= i < a.len() ==> (#[trigger] a[i]).session_id == b[i].session_id
            && a[i].workspace_path == b[i].workspace_path && a[i].updated_at == b[i].updated_at
}

proof fn lemma_shown_alike(scan: ScanView, t1: u64, t2: u64, n: int)
    requires
        scan.steady(t1, t2),
        0 <= n <= scan.files.len(),
    ensures
        alike(scan.shown_upto(t1, n), scan.shown_upto(t2, n)),
    decreases n,
{
    if n > 0 {
        lemma_shown_alike(scan, t1, t2, n - 1);
        let f = scan.files[n - 1];
        assert(scan.shown(f, t1) is Some <==> scan.shown(f, t2) is Some);
    }
}

proof fn lemma_filter_alike(
    a: Seq<SnapshotView>,
    b: Seq<SnapshotView>,
    ids: Seq<Seq<char>>,
    workspaces: Seq<Seq<char>>,
)
    requires
        alike(a, b),
    ensures
        alike(
            a.filter(|s: SnapshotView| !selection::excluded(s, ids, workspaces)),
            b.filter(|s: SnapshotView| !selection::excluded(s, ids, workspaces)),
        ),
    decreases a.len(),
{
    reveal(Seq::filter);
    if a.len() > 0 {
        let n = a.len() - 1;
        assert(alike(a.drop_last(), b.drop_last())) by {
            assert forall|i: int| 0 <= i < n implies (
            #[trigger] a.drop_last()[i]).session_id == b.drop_last()[i].session_id
                && a.drop_last()[i].workspace_path == b.drop_last()[i].workspace_path
                && a.drop_last()[i].updated_at == b.drop_last()[i].updated_at by {
                assert(a[i].session_id == b[i].session_id);
            }
        }
        lemma_filter_alike(a.drop_last(), b.drop_last(), ids, workspaces);
        assert(a[n].session_id == b[n].session_id);
    }
}

proof fn lemma_newest_alike(
    a: Seq<SnapshotView>,
    b: Seq<SnapshotView>,
    limit: int,
    ids: Seq<Seq<char>>,
    workspaces: Seq<Seq<char>>,
)
    requires
        alike(a, b),
        0 <= limit,
    ensures
        alike(newest_shown(a, limit, ids, workspaces), newest_shown(b, limit, ids, workspaces)),
{
    let time = |s: SnapshotView| by_time(s);
    assert(a.map_values(time) =~= b.map_values(time)) by {
        assert forall|i: int| 0 <= i < a.len() implies by_time(#[trigger] a[i]) == by_time(b[i]) by {
            assert(a[i].updated_at == b[i].updated_at);
        }
    }
    ordering::lemma_order_of(a.map_values(time));
    let p = ordering::order_of(a.map_values(time));
    let (x, y) = (ordering::ranked(a, time), ordering::ranked(b, time));
    assert(alike(x, y)) by {
        assert forall|i: int| 0 <= i < x.len() implies (#[trigger] x[i]).session_id
            == y[i].session_id && x[i].workspace_path == y[i].workspace_path && x[i].updated_at
            == y[i].updated_at by {
            assert(x[i] == a[p[i]] && y[i] == b[p[i]]);
            assert(a[p[i]].session_id == b[p[i]].session_id);
        }
    }
    let n = if limit < x.len() {
        limit
    } else {
        x.len() as int
    };
    assert(alike(x.take(n), y.take(n))) by {
        assert forall|i: int| 0 <= i < n implies (#[trigger] x.take(n)[i]).session_id == y.take(
            n,
        )[i].session_id && x.take(n)[i].workspace_path == y.take(n)[i].workspace_path && x.take(
            n,
        )[i].updated_at == y.take(n)[i].updated_at by {
            assert(x[i].session_id == y[i].session_id);
        }
    }
    lemma_filter_alike(x.take(n), y.take(n), ids, workspaces);
}

/// After a poll the bind picker lists every session that the poll showed, also
/// at a later moment, as long as neither the logs nor the database nor the times
/// of the sessions changed: no fewer than the poll showed, no more than its
/// history holds, the newest first, none that is excluded. What the poll showed
/// is still remembered.
pub proof fn lemma_catalog_covers_last_poll(
    o: ObserverView,
    scan: ScanView,
    polled_at: u64,
    listed_at: u64,
    tree_exists: bool,
)
    requires
        o.available,
        0 <= o.max_sessions <= o.catalog_max_sessions,
        scan.steady(polled_at, listed_at),
    ensures
        ({
            let p = o.polled(scan, polled_at);
            let after = (ObserverView { last: p, ..o }).retried(tree_exists);
            let c = after.cataloged(scan, listed_at);
            &&& after.last == p
            &&& forall|i: int|
                0 <= i < p.len() ==> exists|j: int|
                    0 <= j < c.len() && (#[trigger] c[j]).session_id == (
                    #[trigger] p[i]).session_id
            &&& p.len() <= c.len() <= o.catalog_max_sessions
            &&& in_order(c)
            &&& forall|j: int|
                0 <= j < c.len() ==> !selection::excluded(
                    #[trigger] c[j],
                    o.exclude_task_ids,
                    o.exclude_workspaces,
                )
        }),
{
    let p = o.polled(scan, polled_at);
    let c0 = o.cataloged(scan, polled_at);
    let c = o.cataloged(scan, listed_at);
    assert((ObserverView { last: p, ..o }).cataloged(scan, listed_at) == c);
    lemma_shown_alike(scan, polled_at, listed_at, scan.files.len() as int);
    lemma_newest_alike(
        o.seen(scan, polled_at),
        o.seen(scan, listed_at),
        o.catalog_max_sessions,
        o.exclude_task_ids,
        o.exclude_workspaces,
    );
    assert(alike(c0, c));
    lemma_catalog_is_no_shorter(o, scan, polled_at);
    lemma_catalog_is_no_shorter(o, scan, listed_at);
    assert forall|i: int| 0 <= i < p.len() implies exists|j: int|
        0 <= j < c.len() && (#[trigger] c[j]).session_id == (#[trigger] p[i]).session_id by {
        assert(p.contains(p[i]));
        lemma_catalog_covers_poll(o, scan, polled_at, p[i]);
        let j = choose|j: int| 0 <= j < c0.len() && c0[j] == p[i];
        assert(c0[j].session_id == c[j].session_id);
    }
    assert forall|j: int| 0 <= j < c.len() implies !selection::excluded(
        #[trigger] c[j],
        o.exclude_task_ids,
        o.exclude_workspaces,
    ) by {
        if selection::excluded(c[j], o.exclude_task_ids, o.exclude_workspaces) {
            lemma_excluded_sessions_do_not_show(o, scan, listed_at, c[j]);
            assert(c.contains(c[j]));
        }
    }
}

/// What the log of the session says, by itself.
pub open spec fn told_by_log(f: FileView, now: u64) -> SnapshotView {
    let g = mapper::signals_of(
        f.events,
        mapper::approvals_of(f.events),
        f.session_id,
        f.mtime_ms,
    );
    mapper::snapshot_with(g, now, mapper::risk_of(g.detail))
}

/// A log shows exactly if it has events, its session is neither deleted nor
/// archived, and it is not the Claw's, by the folder that the log names or, where
/// it names none, that the database has.
pub proof fn lemma_which_logs_show(scan: ScanView, f: FileView, now: u64)
    ensures
        ({
            let known = scan.meta.contains_key(f.session_id);
            let m = scan.meta[f.session_id];
            let told = told_by_log(f, now).workspace_path;
            let place = if told is Some {
                told
            } else if known {
                m.cwd
            } else {
                None
            };
            scan.shown(f, now) is Some <==> {
                &&& f.events.len() > 0
                &&& !scan.deleted.contains(f.session_id)
                &&& !(known && db_meta::archived(m))
                &&& !db_meta::claw(place)
            }
        }),
{
}

/// A session shows as its log tells it, but for what the database knows better:
/// its title and the time of its last change; the folder that the log does not
/// name is the database's too.
pub proof fn lemma_database_overlays_the_log(scan: ScanView, f: FileView, now: u64, s: SnapshotView)
    requires
        scan.shown(f, now) == Some(s),
    ensures
        ({
            let log = told_by_log(f, now);
            let known = scan.meta.contains_key(f.session_id);
            let m = scan.meta[f.session_id];
            &&& s.session_id == f.session_id
            &&& s.backend is Workbuddy
            &&& s.status == log.status
            &&& s.risk == log.risk
            &&& s.detail == log.detail
            &&& s.waiting_since == log.waiting_since
            &&& known && m.updated_at is Some ==> s.updated_at == m.updated_at->0
            &&& !(known && m.updated_at is Some) ==> s.updated_at == log.updated_at
            &&& known && (m.custom_title matches Some(t) && t.len() > 0) ==> s.title
                == m.custom_title->0
            &&& known && !(m.custom_title matches Some(t) && t.len() > 0) && (
            m.title matches Some(t) && t.len() > 0) ==> s.title == m.title->0
            &&& !(known && ((m.custom_title matches Some(t) && t.len() > 0) || (
            m.title matches Some(t) && t.len() > 0))) ==> s.title == log.title
            &&& log.workspace_path is Some ==> s.workspace_path == log.workspace_path
            &&& log.workspace_path is None && known ==> s.workspace_path == m.cwd
            &&& log.workspace_path is None && !known ==> s.workspace_path is None
        }),
{
}

/// A session that shows is grouped by the folder and the title that it shows
/// with.
pub proof fn lemma_shown_session_is_grouped(scan: ScanView, f: FileView, now: u64, s: SnapshotView)
    requires
        scan.shown(f, now) == Some(s),
    ensures
        ({
            let meta = if scan.meta.contains_key(f.session_id) {
                Some(scan.meta[f.session_id])
            } else {
                None
            };
            let g = db_meta::grouping(s.workspace_path, meta, scan.automations, s.title);
            s.project_category == Some(g.0) && s.project_label == Some(g.1)
        }),
{
}

proof fn lemma_shown_places(scan: ScanView, now: u64, n: int) -> (places: Seq<int>)
    requires
        0 <= n <= scan.files.len(),
    ensures
        places.len() == scan.shown_upto(now, n).len(),
        forall|a: int|
            0 <= a < places.len() ==> 0 <= #[trigger] places[a] < n && scan.shown(
                scan.files[places[a]],
                now,
            ) == Some(scan.shown_upto(now, n)[a]),
        forall|a: int, b: int|
            0 <= a < b < places.len() ==> #[trigger] places[a] < #[trigger] places[b],
        forall|i: int|
            0 <= i < n && scan.shown(#[trigger] scan.files[i], now) is Some ==> places.contains(i),
    decreases n,
{
    if n <= 0 {
        Seq::empty()
    } else {
        let p = lemma_shown_places(scan, now, n - 1);
        if scan.shown(scan.files[n - 1], now) is Some {
            let q = p.push(n - 1);
            assert forall|i: int|
                0 <= i < n && scan.shown(#[trigger] scan.files[i], now) is Some implies q.contains(
                i,
            ) by {
                if i < n - 1 {
                    assert(p.contains(i));
                    let a = choose|a: int| 0 <= a < p.len() && p[a] == i;
                    assert(q[a] == i);
                } else {
                    assert(q[p.len() as int] == n - 1);
                }
            }
            q
        } else {
            p
        }
    }
}

/// While the tree of logs is there, exactly the logs that show are seen, in the
/// order of the scan; without it none is.
pub proof fn lemma_seen_logs(o: ObserverView, scan: ScanView, now: u64) -> (places: Seq<int>)
    ensures
        !o.available ==> o.seen(scan, now).len() == 0,
        o.available ==> {
            &&& places.len() == o.seen(scan, now).len()
            &&& forall|a: int|
                0 <= a < places.len() ==> 0 <= #[trigger] places[a] < scan.files.len()
                    && scan.shown(scan.files[places[a]], now) == Some(o.seen(scan, now)[a])
            &&& forall|a: int, b: int|
                0 <= a < b < places.len() ==> #[trigger] places[a] < #[trigger] places[b]
            &&& forall|i: int|
                0 <= i < scan.files.len() && scan.shown(#[trigger] scan.files[i], now) is Some
                    ==> places.contains(i)
        },
{
    lemma_shown_places(scan, now, scan.files.len() as int)
}

/// Session `i` of the list comes before session `j`: it changed later, or at the
/// same time and was found earlier.
pub open spec fn newer(all: Seq<SnapshotView>, i: int, j: int) -> bool {
    all[i].updated_at > all[j].updated_at || (all[i].updated_at == all[j].updated_at && i < j)
}

/// Of the sessions in the order of their last change, the latest first, the first
/// ones up to the limit show, without those that are left out.
///
/// The first result is that order, over positions in the list; the second holds
/// the places in it of the sessions that show, one for each.
pub proof fn lemma_newest_show(
    all: Seq<SnapshotView>,
    limit: int,
    ids: Seq<Seq<char>>,
    workspaces: Seq<Seq<char>>,
) -> (r: (Seq<int>, Seq<int>))
    requires
        0 <= limit,
    ensures
        ({
            let (p, places) = r;
            let shown = newest_shown(all, limit, ids, workspaces);
            &&& p.len() == all.len()
            &&& forall|a: int| 0 <= a < p.len() ==> 0 <= #[trigger] p[a] < all.len()
            &&& forall|i: int| 0 <= i < all.len() ==> #[trigger] p.contains(i)
            &&& forall|a: int, b: int|
                0 <= a < b < p.len() ==> newer(all, #[trigger] p[a], #[trigger] p[b])
            &&& places.len() == shown.len()
            &&& forall|a: int|
                0 <= a < places.len() ==> 0 <= #[trigger] places[a] < limit && places[a] < p.len()
                    && shown[a] == all[p[places[a]]] && !selection::excluded(
                    shown[a],
                    ids,
                    workspaces,
                )
            &&& forall|a: int, b: int|
                0 <= a < b < places.len() ==> #[trigger] places[a] < #[trigger] places[b]
            &&& forall|k: int|
                0 <= k < p.len() && k < limit && !selection::excluded(
                    all[#[trigger] p[k]],
                    ids,
                    workspaces,
                ) ==> places.contains(k)
        }),
{
    let rank = |s: SnapshotView| by_time(s);
    let ranks = all.map_values(rank);
    ordering::lemma_order_of(ranks);
    let p = ordering::order_of(ranks);
    let sorted = ordering::ranked(all, rank);
    let keep = |s: SnapshotView| !selection::excluded(s, ids, workspaces);
    let n = if limit < sorted.len() {
        limit
    } else {
        sorted.len() as int
    };
    let head = sorted.take(n);
    let places = lists::lemma_filter_places(head, keep);
    assert forall|a: int, b: int| 0 <= a < b < p.len() implies newer(
        all,
        #[trigger] p[a],
        #[trigger] p[b],
    ) by {
        assert(ordering::precedes(ranks, p[a], p[b]));
    }
    assert forall|k: int|
        0 <= k < p.len() && k < limit && !selection::excluded(
            all[#[trigger] p[k]],
            ids,
            workspaces,
        ) implies places.contains(k) by {
        assert(head[k] == all[p[k]]);
    }
    (p, places)
}

/// The poll shows the newest sessions up to its limit, and the catalog up to its
/// own; both leave out what the options do.
pub proof fn lemma_poll_and_catalog_limits(o: ObserverView, scan: ScanView, now: u64)
    ensures
        o.polled(scan, now) == newest_shown(
            o.seen(scan, now),
            o.max_sessions,
            o.exclude_task_ids,
            o.exclude_workspaces,
        ),
        o.cataloged(scan, now) == newest_shown(
            o.seen(scan, now),
            o.catalog_max_sessions,
            o.exclude_task_ids,
            o.exclude_workspaces,
        ),
{
}

/// Opening finds out whether the tree is there; it changes nothing else, and
/// nothing at all where a missing tree is an error. What is available is not
/// looked for again.
pub proof fn lemma_opening_looks_for_the_tree(o: ObserverView, tree_exists: bool)
    ensures
        tree_exists ==> o.opened(tree_exists).available,
        !tree_exists && !o.fail_on_missing ==> !o.opened(tree_exists).available,
        !tree_exists && o.fail_on_missing ==> o.opened(tree_exists) == o,
        o.opened(tree_exists) == (ObserverView {
            available: o.opened(tree_exists).available,
            ..o
        }),
        o.available ==> o.retried(tree_exists) == o,
        !o.available ==> o.retried(tree_exists) == (ObserverView { available: tree_exists, ..o }),
{
}

/// A file is a session's log exactly if its name is the id of the session, not
/// empty, with the ending of logs behind it.
pub proof fn lemma_log_is_named_by_its_session(name: Seq<char>, id: Seq<char>)
    requires
        id.len() > 0,
    ensures
        log_of(name) == Some(id) <==> name == id + ".jsonl"@,
{
    reveal_strlit(".jsonl");
    assert(".jsonl"@.len() == 6);
    if name == id + ".jsonl"@ {
        text::lemma_part_is_found(id, ".jsonl"@, Seq::empty());
        assert(name.take(name.len() - 6) =~= id);
    }
    if log_of(name) == Some(id) {
        text::lemma_ends_are_parts(name, ".jsonl"@);
        let r = text::lemma_found_part_stands_there(name, ".jsonl"@);
    }
}

} // verus!
