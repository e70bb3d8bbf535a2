//! The desktop service: the host, its settings, and what is kept across restarts.
use crate::board::session_board;
use crate::board::slot_allocator;
use crate::board::session_board::{BoardView, SessionBoard};
use crate::config::{default_pins_path, default_settings_path};
use crate::host;
use crate::host::{
    now_ms, Answer, BackendError, BackendObserver, FadeView, HostCore, HostView, SessionInfo,
};
use crate::links;
use crate::links::{OpenTarget, TargetView};
use crate::pins;
use crate::protocol;
use crate::protocol::{
    Action, BackendId, BoardState, BoardStateView, DeckStatus, LedFrame, LedFrameView, PolicyMode,
    Risk, SessionSnapshot, SnapshotView, DONE_TTL_MS, DONE_TTL_UNOPENED_MS, SLOT_COUNT,
};
use crate::text;
use vstd::prelude::*;

verus! {

/// What the user has set.
#[derive(Debug, Clone, Copy, PartialEq, Eq, Structural)]
pub struct DeckSettings {
    /// Fill free keys by priority. When false, only pinned sessions show.
    pub auto_fill: bool,
    /// How long a finished session stays Done once it was opened from the deck.
    pub done_ttl_after_open_ms: u64,
    /// How long a finished session stays Done if it is never opened.
    pub done_ttl_unopened_ms: u64,
}

/// The settings of a new installation.
pub open spec fn usual_settings() -> DeckSettings {
    DeckSettings {
        auto_fill: false,
        done_ttl_after_open_ms: DONE_TTL_MS,
        done_ttl_unopened_ms: DONE_TTL_UNOPENED_MS,
    }
}

impl Default for DeckSettings {
    fn default() -> (r: DeckSettings)
        ensures
            r == usual_settings(),
    {
        DeckSettings {
            auto_fill: false,
            done_ttl_after_open_ms: DONE_TTL_MS,
            done_ttl_unopened_ms: DONE_TTL_UNOPENED_MS,
        }
    }
}

/// The action that a button of the window stands for; the key is left open.
pub open spec fn ui_action(s: Seq<char>) -> Option<Action> {
    let t = text::lowered(text::trimmed(s));
    if t == "accept"@ || t == "ok"@ {
        Some(Action::Accept { i: None })
    } else if t == "reject"@ || t == "no"@ {
        Some(Action::Reject { i: None })
    } else if t == "stop"@ || t == "stp"@ {
        Some(Action::Stop { i: None })
    } else if t == "stop_all"@ || t == "stopall"@ {
        Some(Action::StopAll)
    } else {
        None
    }
}

/// The action that a button of the window stands for; the key is left open.
/// Case and surrounding white space do not matter.
pub fn parse_ui_action(s: &str) -> (r: Option<Action>)
    ensures
        r == ui_action(s@),
{
    let trimmed = text::trim(s);
    let t = text::to_ascii_lowercase(trimmed.as_str());
    let t = t.as_str();
    if text::same(t, "accept") || text::same(t, "ok") {
        Some(Action::Accept { i: None })
    } else if text::same(t, "reject") || text::same(t, "no") {
        Some(Action::Reject { i: None })
    } else if text::same(t, "stop") || text::same(t, "stp") {
        Some(Action::Stop { i: None })
    } else if text::same(t, "stop_all") || text::same(t, "stopall") {
        Some(Action::StopAll)
    } else {
        None
    }
}

/// An empty board that was never refreshed.
pub open spec fn blank_board() -> BoardView {
    BoardView {
        slot_count: SLOT_COUNT as int,
        entries: Seq::empty(),
        focus: 0,
        pins: Map::empty(),
        auto_fill: true,
        mode: PolicyMode::Act,
        led: None,
        board: None,
    }
}

/// The sessions of the demonstration board: one waits, one works.
pub open spec fn demo_sessions(now: u64) -> Seq<SnapshotView> {
    seq![
        SnapshotView {
            backend: BackendId::Zcode,
            session_id: "demo_waiting"@,
            title: "Demo: waiting for approval"@,
            status: DeckStatus::Waiting,
            risk: Some(Risk::High),
            detail: Some("Bash: shell"@),
            waiting_since: Some(
                if now >= 30_000 {
                    (now - 30_000) as u64
                } else {
                    0
                },
            ),
            updated_at: now,
            workspace_path: Some("/demo"@),
            project_category: None,
            project_label: None,
        },
        SnapshotView {
            backend: BackendId::Zcode,
            session_id: "demo_working"@,
            title: "Demo: running task"@,
            status: DeckStatus::Working,
            risk: None,
            detail: None,
            waiting_since: None,
            updated_at: now,
            workspace_path: Some("/demo"@),
            project_category: None,
            project_label: None,
        },
    ]
}

/// The demonstration board.
pub open spec fn demo_board(now: u64) -> BoardView {
    BoardView {
        entries: session_board::replaced(
            Seq::empty(),
            BackendId::Zcode,
            demo_sessions(now),
            Map::empty(),
        ),
        ..blank_board()
    }
}

/// The LED frame and the board state of the demonstration board, as of `now`.
pub fn demo_board_at(now: u64) -> (r: (LedFrame, BoardState))
    ensures
        r.0@ == demo_board(now).led_at(now),
        r.1@ == demo_board(now).state_at(now),
{
    let mut board = SessionBoard::new(SLOT_COUNT);
    let since: u64 = if now >= 30_000 {
        now - 30_000
    } else {
        0
    };
    let mut sessions: Vec<SessionSnapshot> = Vec::new();
    sessions.push(
        SessionSnapshot {
            backend: BackendId::Zcode,
            session_id: "demo_waiting".to_string(),
            title: "Demo: waiting for approval".to_string(),
            status: DeckStatus::Waiting,
            risk: Some(Risk::High),
            detail: Some("Bash: shell".to_string()),
            waiting_since: Some(since),
            updated_at: now,
            workspace_path: Some("/demo".to_string()),
            project_category: None,
            project_label: None,
        },
    );
    sessions.push(
        SessionSnapshot {
            backend: BackendId::Zcode,
            session_id: "demo_working".to_string(),
            title: "Demo: running task".to_string(),
            status: DeckStatus::Working,
            risk: None,
            detail: None,
            waiting_since: None,
            updated_at: now,
            workspace_path: Some("/demo".to_string()),
            project_category: None,
            project_label: None,
        },
    );
    assert(protocol::snapshots(sessions@) =~= demo_sessions(now));
    board.replace_backend_sessions(BackendId::Zcode, sessions, now);
    frames(&board)
}

/// The demonstration board by the clock.
pub fn demo_board_state() -> (r: (LedFrame, BoardState))
    ensures
        exists|now: u64|
            r.0@ == (#[trigger] demo_board(now)).led_at(now) && r.1@ == demo_board(now).state_at(
                now,
            ),
{
    let now: u64 = now_ms();
    demo_board_at(now)
}

/// Both frames of a board that was refreshed.
fn frames(board: &SessionBoard) -> (r: (LedFrame, BoardState))
    requires
        board@.led is Some,
        board@.board is Some,
    ensures
        Some(r.0@) == board@.led,
        Some(r.1@) == board@.board,
{
    let led = match board.led_frame() {
        Some(f) => f.clone(),
        None => LedFrame::new(Vec::new()),
    };
    let state = match board.board_state() {
        Some(b) => b.clone(),
        None => BoardState::new(Vec::new(), 0, PolicyMode::Act),
    };
    (led, state)
}

/// A file that the service keeps, with what it is to hold.
#[derive(Debug, PartialEq)]
pub struct KeptFile {
    pub path: String,
    pub text: String,
}

/// The content of a `DesktopService`.
#[verifier::ext_equal]
pub struct DesktopView {
    pub host: HostView,
    pub settings: DeckSettings,
    pub pins_path: Option<Seq<char>>,
    pub settings_path: Option<Seq<char>>,
}

impl DesktopView {
    /// The host follows the settings.
    pub open spec fn in_step(self) -> bool {
        &&& self.host.board.auto_fill == self.settings.auto_fill
        &&& self.host.fade.after_open_ms == self.settings.done_ttl_after_open_ms
        &&& self.host.fade.unopened_ms == self.settings.done_ttl_unopened_ms
    }

    /// The board state that the window gets: the latest, or that of a blank board.
    pub open spec fn board_state(self) -> BoardStateView {
        match self.host.board.board {
            Some(b) => b,
            None => blank_board().state_at(0),
        }
    }

    /// The LED frame that the window gets: the latest, or that of a blank board.
    pub open spec fn led_frame(self) -> LedFrameView {
        match self.host.board.led {
            Some(f) => f,
            None => blank_board().led_at(0),
        }
    }
}

/// A blank board looks the same at any time.
pub proof fn lemma_blank_board_is_timeless(now: u64)
    ensures
        blank_board().state_at(now) == blank_board().state_at(0),
        blank_board().led_at(now) == blank_board().led_at(0),
{
    let b = blank_board();
    assert(b.scored(now) =~= b.scored(0));
    assert(b.shown(now) =~= b.shown(0));
    assert forall|i: int| 0 <= i < b.slot_count implies #[trigger] b.led_at(now).slots[i]
        == b.led_at(0).slots[i] by {
        session_board::lemma_empty_board_is_dark(b, now, i);
        session_board::lemma_empty_board_is_dark(b, 0, i);
        assert(b.shown(now)[i].session is None);
    }
    assert(b.led_at(now).slots =~= b.led_at(0).slots);
}

/// The host after a start: it was ticked at `t0` and got these answers, then the
/// settings took effect at `t1`, and the pins, if there are any, at `t2`.
pub open spec fn started(
    h: HostView,
    a: Seq<Answer>,
    settings: DeckSettings,
    pins: Map<usize, Seq<char>>,
    t0: u64,
    t1: u64,
    t2: u64,
) -> HostView {
    let ticked = HostView { board: host::all_answered(h.board, h.fade, a, t0), ..h };
    let filling = ticked.filling(settings.auto_fill, t1);
    let set = HostView {
        fade: FadeView {
            after_open_ms: settings.done_ttl_after_open_ms,
            unopened_ms: settings.done_ttl_unopened_ms,
            ..filling.fade
        },
        ..filling
    };
    if pins =~= Map::<usize, Seq<char>>::empty() {
        set
    } else {
        set.repinned(pins, t2)
    }
}

/// The pins may be those that were kept: none without a file.
pub open spec fn kept_pins(
    pins: Map<usize, Seq<char>>,
    path: Option<Seq<char>>,
    saved: Option<Seq<char>>,
) -> bool {
    match (path, saved) {
        (Some(_), Some(raw)) => pins::read_from(pins, raw),
        _ => pins == Map::<usize, Seq<char>>::empty(),
    }
}

/// The settings that were kept, or the usual ones without a file.
pub open spec fn kept_settings(
    path: Option<Seq<char>>,
    saved: Option<DeckSettings>,
) -> DeckSettings {
    match (path, saved) {
        (Some(_), Some(s)) => s,
        _ => usual_settings(),
    }
}

/// The service is what a start makes of this host, these paths and what is kept there.
pub open spec fn starts(
    h: HostView,
    observers: Seq<Box<dyn BackendObserver>>,
    v: DesktopView,
    pins_path: Option<Seq<char>>,
    settings_path: Option<Seq<char>>,
    saved_pins: Option<Seq<char>>,
    saved_settings: Option<DeckSettings>,
) -> bool {
    &&& v.pins_path == pins_path
    &&& v.settings_path == settings_path
    &&& v.settings == kept_settings(settings_path, saved_settings)
    &&& exists|a: Seq<Answer>, pins: Map<usize, Seq<char>>, t0: u64, t1: u64, t2: u64| #[trigger]
        started(h, a, v.settings, pins, t0, t1, t2) == v.host && host::may_tick(
            observers,
            h.board.pins,
            a,
        ) && kept_pins(pins, pins_path, saved_pins)
}

/// These are the catalogs that the observers gave when a key was opened: each
/// was asked if there was something to open, and none otherwise.
pub open spec fn consulted(
    before: Seq<Box<dyn BackendObserver>>,
    after: Seq<Box<dyn BackendObserver>>,
    opened: bool,
    catalogs: Seq<Seq<SnapshotView>>,
) -> bool {
    if opened {
        exists|replies: Seq<Result<Seq<SnapshotView>, Seq<char>>>| #[trigger]
            host::may_answer(before, replies) && replies.len() == before.len() && catalogs
                == host::given(replies)
    } else {
        after == before
    }
}

/// What opening the session on key `i` does and gives: the key gets the focus at
/// `t1`, its session counts as opened at `t2`, and the catalogs tell its workspace.
pub open spec fn opening(
    h: HostView,
    i: usize,
    t1: u64,
    t2: u64,
    catalogs: Seq<Seq<SnapshotView>>,
) -> (HostView, Result<(BackendId, TargetView), Seq<char>>) {
    let focused = h.focused(i, t1);
    match links::session_on(focused.board.board->0, i) {
        Err(e) => (focused, Err(e)),
        Ok(p) => (
            focused.opened(p.0, p.1, t2),
            Ok(
                (
                    p.0,
                    links::target_of(p.0, p.1, links::first_row(host::merged(catalogs), p.1)),
                ),
            ),
        ),
    }
}

/// The desktop service. Reading and writing files is left to its user.
pub struct DesktopService {
    host: HostCore,
    /// Where the pins are kept; not at all when not given.
    pins_path: Option<String>,
    /// Where the settings are kept; not at all when not given.
    settings_path: Option<String>,
    settings: DeckSettings,
}

impl View for DesktopService {
    type V = DesktopView;

    closed spec fn view(&self) -> DesktopView {
        DesktopView {
            host: self.host@,
            settings: self.settings,
            pins_path: text::opt(self.pins_path),
            settings_path: text::opt(self.settings_path),
        }
    }
}

impl DesktopService {
    /// The host is well formed.
    pub closed spec fn wf(&self) -> bool {
        self.host.wf()
    }

    /// The observers, as they are now.
    pub closed spec fn observed(&self) -> Seq<Box<dyn BackendObserver>> {
        self.host.observed()
    }

    /// Starts the service with the files at these paths, given what they hold:
    /// the text of the pins and the settings, or None for what could not be read.
    pub fn new_with_paths(
        host: HostCore,
        pins_path: Option<String>,
        settings_path: Option<String>,
        saved_pins: Option<String>,
        saved_settings: Option<DeckSettings>,
    ) -> (r: DesktopService)
        requires
            host.wf(),
        ensures
            r.wf(),
            host::same_observers(host.observed(), r.observed()),
            r@.in_step(),
            starts(
                host@,
                host.observed(),
                r@,
                text::opt(pins_path),
                text::opt(settings_path),
                text::opt(saved_pins),
                saved_settings,
            ),
    {
        let ghost h0 = host@;
        let ghost n = host.observed();
        let mut host = host;
        let _ = host.tick();
        let ghost (a, t0) = choose|a: Seq<Answer>, t0: u64| #[trigger]
            host::all_answered(h0.board, h0.fade, a, t0) == host@.board && host::may_tick(
                n,
                h0.board.pins,
                a,
            );
        let ghost h1 = host@;
        let settings = if settings_path.is_some() {
            match saved_settings {
                Some(s) => s,
                None => DeckSettings::default(),
            }
        } else {
            DeckSettings::default()
        };
        host.set_auto_fill(settings.auto_fill);
        let ghost t1 = choose|t1: u64| host@ == #[trigger] h1.filling(settings.auto_fill, t1);
        host.set_done_ttl(settings.done_ttl_after_open_ms, settings.done_ttl_unopened_ms);
        let ghost h2 = host@;
        let ghost mut found: Map<usize, Seq<char>> = Map::empty();
        let ghost mut t2: u64 = 0;
        if pins_path.is_some() {
            if let Some(raw) = &saved_pins {
                let pins = pins::load_pins(raw.as_str());
                let ghost ids = slot_allocator::pin_ids(pins@);
                proof {
                    found = ids;
                }
                if !pins.is_empty() {
                    proof {
                        let k = choose|k: usize| pins@.contains_key(k);
                        assert(ids.contains_key(k));
                    }
                    host.set_pins(pins);
                    proof {
                        t2 = choose|t: u64| host@ == #[trigger] h2.repinned(ids, t);
                    }
                } else {
                    assert(ids =~= Map::<usize, Seq<char>>::empty());
                }
            }
        }
        assert(host::may_tick(n, h0.board.pins, a));
        assert(kept_pins(found, text::opt(pins_path), text::opt(saved_pins)));
        let r = DesktopService { host, pins_path, settings_path, settings };
        assert(started(h0, a, r@.settings, found, t0, t1, t2) == r@.host);
        r
    }

    /// Starts the service with the files at their usual places in a home directory.
    pub fn new(
        host: HostCore,
        home: &str,
        saved_pins: Option<String>,
        saved_settings: Option<DeckSettings>,
    ) -> (r: DesktopService)
        requires
            host.wf(),
        ensures
            r.wf(),
            host::same_observers(host.observed(), r.observed()),
            r@.in_step(),
            starts(
                host@,
                host.observed(),
                r@,
                Some(protocol::joined(home@, ".agent-deck/pins.json"@)),
                Some(protocol::joined(home@, ".agent-deck/settings.json"@)),
                text::opt(saved_pins),
                saved_settings,
            ),
    {
        DesktopService::new_with_paths(
            host,
            Some(default_pins_path(home)),
            Some(default_settings_path(home)),
            saved_pins,
            saved_settings,
        )
    }

    /// Starts the service with a file for the pins only.
    pub fn new_with_pins_path(
        host: HostCore,
        pins_path: Option<String>,
        saved_pins: Option<String>,
    ) -> (r: DesktopService)
        requires
            host.wf(),
        ensures
            r.wf(),
            host::same_observers(host.observed(), r.observed()),
            r@.in_step(),
            starts(
                host@,
                host.observed(),
                r@,
                text::opt(pins_path),
                None,
                text::opt(saved_pins),
                None,
            ),
    {
        DesktopService::new_with_paths(host, pins_path, None, saved_pins, None)
    }

    /// A service around a host as it is. Nothing is kept, and the host keeps its
    /// own ways until a setting changes.
    pub fn from_host(host: HostCore) -> (r: DesktopService)
        requires
            host.wf(),
        ensures
            r.wf(),
            r.observed() == host.observed(),
            r@ == (DesktopView {
                host: host@,
                settings: usual_settings(),
                pins_path: None,
                settings_path: None,
            }),
    {
        DesktopService {
            host,
            pins_path: None,
            settings_path: None,
            settings: DeckSettings::default(),
        }
    }

    /// Asks all backends and brings the board up to date by the clock.
    pub fn tick(&mut self) -> (r: Result<(), BackendError>)
        requires
            old(self).wf(),
        ensures
            final(self).wf(),
            host::same_observers(old(self).observed(), final(self).observed()),
            r is Ok,
            final(self)@ == (DesktopView { host: final(self)@.host, ..old(self)@ }),
            final(self)@.host.fade == old(self)@.host.fade,
            exists|a: Seq<Answer>, now: u64|
                final(self)@.host.board == #[trigger] host::all_answered(
                    old(self)@.host.board,
                    old(self)@.host.fade,
                    a,
                    now,
                ) && host::may_tick(old(self).observed(), old(self)@.host.board.pins, a),
            old(self)@.in_step() ==> final(self)@.in_step(),
    {
        let now: u64 = now_ms();
        self.tick_at(now)
    }

    /// Asks all backends and brings the board up to date as of `now`.
    pub fn tick_at(&mut self, now: u64) -> (r: Result<(), BackendError>)
        requires
            old(self).wf(),
        ensures
            final(self).wf(),
            host::same_observers(old(self).observed(), final(self).observed()),
            r is Ok,
            final(self)@ == (DesktopView { host: final(self)@.host, ..old(self)@ }),
            final(self)@.host.fade == old(self)@.host.fade,
            exists|a: Seq<Answer>|
                final(self)@.host.board == #[trigger] host::all_answered(
                    old(self)@.host.board,
                    old(self)@.host.fade,
                    a,
                    now,
                ) && host::may_tick(old(self).observed(), old(self)@.host.board.pins, a),
            old(self)@.in_step() ==> final(self)@.in_step(),
    {
        let ghost h = self.host@;
        let ghost n = self.host.observed();
        let r = match self.host.tick_at(now) {
            Ok(_) => Ok(()),
            Err(e) => Err(e),
        };
        proof {
            let a = choose|a: Seq<Answer>| #[trigger]
                host::all_answered(h.board, h.fade, a, now) == self.host@.board
                    && host::may_tick(n, h.board.pins, a);
            host::lemma_answers_keep_settings(h.board, h.fade, a, now);
        }
        r
    }

    /// The board state for the window.
    pub fn board_state(&self) -> (r: BoardState)
        ensures
            r@ == self@.board_state(),
    {
        if let Some(b) = self.host.board_state() {
            return b.clone();
        }
        blank_frames().1
    }

    /// The LED frame for the window.
    pub fn led_frame(&self) -> (r: LedFrame)
        ensures
            r@ == self@.led_frame(),
    {
        if let Some(f) = self.host.led_frame() {
            return f.clone();
        }
        blank_frames().0
    }

    /// Moves the focus, by the clock.
    pub fn set_focus(&mut self, i: usize)
        requires
            old(self).wf(),
        ensures
            final(self).wf(),
            final(self).observed() == old(self).observed(),
            final(self)@ == (DesktopView { host: final(self)@.host, ..old(self)@ }),
            exists|now: u64| final(self)@.host == #[trigger] old(self)@.host.focused(i, now),
    {
        self.host.set_focus(i);
    }

    /// Moves the focus to key `i`, if there is one, and refreshes the board.
    pub fn set_focus_at(&mut self, i: usize, now: u64)
        requires
            old(self).wf(),
        ensures
            final(self).wf(),
            final(self).observed() == old(self).observed(),
            final(self)@ == (DesktopView {
                host: old(self)@.host.focused(i, now),
                ..old(self)@
            }),
    {
        self.host.set_focus_at(i, now);
    }

    /// Remembers that the user opened a session now.
    pub fn mark_opened(&mut self, backend: BackendId, session_id: &str)
        requires
            old(self).wf(),
        ensures
            final(self).wf(),
            final(self).observed() == old(self).observed(),
            final(self)@ == (DesktopView { host: final(self)@.host, ..old(self)@ }),
            exists|now: u64|
                final(self)@.host == #[trigger] old(self)@.host.opened(backend, session_id@, now),
    {
        self.host.mark_opened(backend, session_id);
    }

    /// Remembers that the user opened a session at `now`.
    pub fn mark_opened_at(&mut self, backend: BackendId, session_id: &str, now: u64)
        requires
            old(self).wf(),
        ensures
            final(self).wf(),
            final(self).observed() == old(self).observed(),
            final(self)@ == (DesktopView {
                host: old(self)@.host.opened(backend, session_id@, now),
                ..old(self)@
            }),
    {
        self.host.mark_opened_at(backend, session_id, now);
    }

    /// Binds a session to key `i`, or unbinds the key. A session that the board
    /// does not know is looked for in the catalogs. The result is the file that
    /// keeps the pins, to be written.
    pub fn pin_slot(&mut self, i: usize, session_id: Option<String>) -> (r: Option<KeptFile>)
        requires
            old(self).wf(),
        ensures
            final(self).wf(),
            host::same_observers(old(self).observed(), final(self).observed()),
            final(self)@ == (DesktopView { host: final(self)@.host, ..old(self)@ }),
            exists|found: Option<SnapshotView>, t: u64, now: u64|
                final(self)@.host == #[trigger] host::bound(
                    old(self)@.host,
                    i,
                    text::opt(session_id),
                    found,
                    t,
                    now,
                ) && host::looked_up(
                    old(self)@.host.board,
                    old(self).observed(),
                    final(self).observed(),
                    text::opt(session_id),
                    found,
                ),
            match r {
                Some(f) => old(self)@.pins_path == Some(f.path@) && pins::text_table(f.text@)
                    == Some(pins::table_of(final(self)@.host.board.pins)),
                None => old(self)@.pins_path is None,
            },
            old(self)@.in_step() ==> final(self)@.in_step(),
    {
        self.host.pin_session_from_catalog(i, session_id);
        match &self.pins_path {
            Some(path) => match pins::save_pins(self.host.pins()) {
                Some(text) => Some(KeptFile { path: path.clone(), text }),
                None => None,
            },
            None => None,
        }
    }

    /// Rows of the bind picker: all sessions of all backends.
    pub fn list_sessions(&mut self) -> (r: Vec<SessionInfo>)
        requires
            old(self).wf(),
        ensures
            final(self).wf(),
            host::same_observers(old(self).observed(), final(self).observed()),
            final(self)@ == old(self)@,
            host::may_catalog(old(self).observed(), host::infos(r@)),
    {
        self.host.list_catalog()
    }

    /// The settings.
    pub fn settings(&self) -> (r: &DeckSettings)
        ensures
            *r == self@.settings,
    {
        &self.settings
    }

    /// Turns the filling of free keys on or off. The result is the path of the
    /// file that keeps the settings, to be written.
    pub fn set_auto_fill(&mut self, enabled: bool) -> (r: Option<String>)
        requires
            old(self).wf(),
        ensures
            final(self).wf(),
            final(self).observed() == old(self).observed(),
            final(self)@ == (DesktopView {
                host: final(self)@.host,
                settings: DeckSettings { auto_fill: enabled, ..old(self)@.settings },
                ..old(self)@
            }),
            exists|now: u64| final(self)@.host == #[trigger] old(self)@.host.filling(enabled, now),
            text::opt(r) == old(self)@.settings_path,
            old(self)@.in_step() ==> final(self)@.in_step(),
    {
        self.settings.auto_fill = enabled;
        self.host.set_auto_fill(enabled);
        text::clone_opt(&self.settings_path)
    }

    /// Sets how long Done stays. The result is the path of the file that keeps
    /// the settings, to be written.
    pub fn set_done_ttl(&mut self, after_open_ms: u64, unopened_ms: u64) -> (r: Option<String>)
        requires
            old(self).wf(),
        ensures
            final(self).wf(),
            final(self).observed() == old(self).observed(),
            final(self)@ == (DesktopView {
                host: HostView {
                    fade: FadeView { after_open_ms, unopened_ms, ..old(self)@.host.fade },
                    ..old(self)@.host
                },
                settings: DeckSettings {
                    done_ttl_after_open_ms: after_open_ms,
                    done_ttl_unopened_ms: unopened_ms,
                    ..old(self)@.settings
                },
                ..old(self)@
            }),
            text::opt(r) == old(self)@.settings_path,
            old(self)@.in_step() ==> final(self)@.in_step(),
    {
        self.settings.done_ttl_after_open_ms = after_open_ms;
        self.settings.done_ttl_unopened_ms = unopened_ms;
        self.host.set_done_ttl(after_open_ms, unopened_ms);
        text::clone_opt(&self.settings_path)
    }

    /// Whether the board shows a demonstration: it never does.
    pub fn using_demo(&self) -> (r: bool)
        ensures
            !r,
    {
        false
    }

    /// Performs what a button of the window stands for, on the focused key, and
    /// answers with a status text.
    pub fn dispatch_action(&mut self, action: &str) -> (r: String)
        requires
            old(self).wf(),
        ensures
            final(self).wf(),
            host::same_observers(old(self).observed(), final(self).observed()),
            final(self)@ == old(self)@,
            match ui_action(action@) {
                None => r@ == "unsupported:unknown:"@ + action@ && final(self).observed() == old(
                    self,
                ).observed(),
                Some(a) => host::replied(
                    old(self)@.host.board,
                    old(self).observed(),
                    final(self).observed(),
                    a,
                    r@,
                ),
            },
    {
        match parse_ui_action(action) {
            None => {
                let mut r = "unsupported:unknown:".to_string();
                r.append(action);
                r
            },
            Some(a) => self.host.dispatch_action(&a),
        }
    }

    /// The host.
    pub fn host(&self) -> (r: &HostCore)
        ensures
            r@ == self@.host,
            self.wf() ==> r.wf(),
            r.observed() == self.observed(),
    {
        &self.host
    }

    /// Opens the session on key `i`: the key gets the focus, the session counts
    /// as opened, whether or not its application comes up, and the result is
    /// what to hand to the operating system.
    pub fn open_slot_session(&mut self, i: usize) -> (r: Result<(BackendId, OpenTarget), String>)
        requires
            old(self).wf(),
        ensures
            final(self).wf(),
            host::same_observers(old(self).observed(), final(self).observed()),
            final(self)@ == (DesktopView { host: final(self)@.host, ..old(self)@ }),
            exists|t1: u64, t2: u64, c: Seq<Seq<SnapshotView>>| #[trigger]
                opening(old(self)@.host, i, t1, t2, c) == (final(self)@.host, opened_view(r))
                    && consulted(old(self).observed(), final(self).observed(), r is Ok, c),
    {
        let ghost h0 = self.host@;
        let ghost before = self.host.observed();
        self.host.set_focus(i);
        let ghost t1 = choose|t1: u64| self.host@ == #[trigger] h0.focused(i, t1);
        let ghost h1 = self.host@;
        let board = self.board_state();
        match links::slot_session(&board, i) {
            Err(e) => {
                let ghost c: Seq<Seq<SnapshotView>> = Seq::empty();
                assert(opening(h0, i, t1, 0, c) == (self@.host, opened_view(Err(e))));
                Err(e)
            },
            Ok((backend, session_id)) => {
                self.host.mark_opened(backend, session_id.as_str());
                let ghost t2 = choose|t2: u64|
                    self.host@ == #[trigger] h1.opened(backend, session_id@, t2);
                let catalog = self.host.list_catalog();
                let ghost replies = choose|
                    replies: Seq<Result<Seq<SnapshotView>, Seq<char>>>,
                | #[trigger]
                    host::may_answer(before, replies) && replies.len() == before.len()
                        && host::infos(catalog@) == host::merged(host::given(replies));
                let ghost c = host::given(replies);
                let info = links::find_row(&catalog, session_id.as_str());
                let target = links::open_target(backend, session_id.as_str(), info);
                let r = Ok((backend, target));
                assert(opening(h0, i, t1, t2, c) == (self@.host, opened_view(r)));
                r
            },
        }
    }
}

/// The content of what opening a key gives.
pub open spec fn opened_view(r: Result<(BackendId, OpenTarget), String>) -> Result<
    (BackendId, TargetView),
    Seq<char>,
> {
    match r {
        Ok(p) => Ok((p.0, p.1@)),
        Err(e) => Err(e@),
    }
}

/// Both frames of a blank board.
fn blank_frames() -> (r: (LedFrame, BoardState))
    ensures
        r.0@ == blank_board().led_at(0),
        r.1@ == blank_board().state_at(0),
{
    let now: u64 = now_ms();
    let mut board = SessionBoard::new(SLOT_COUNT);
    board.recompute(now);
    proof {
        lemma_blank_board_is_timeless(now);
    }
    frames(&board)
}

/// How often the backends are asked, in milliseconds. A key has to follow its
/// session within a beat.
pub const POLL_INTERVAL_MS: u64 = 200;

/// What to do with the window.
#[derive(Debug, Clone, Copy, PartialEq, Eq, Structural)]
pub enum WindowStep {
    Show,
    Hide,
    Quit,
    Nothing,
}

/// What an entry of the tray menu asks for.
pub fn menu_step(id: &str) -> (r: WindowStep)
    ensures
        r == (if id@ == "show"@ {
            WindowStep::Show
        } else if id@ == "hide"@ {
            WindowStep::Hide
        } else if id@ == "quit"@ {
            WindowStep::Quit
        } else {
            WindowStep::Nothing
        }),
{
    if text::same(id, "show") {
        WindowStep::Show
    } else if text::same(id, "hide") {
        WindowStep::Hide
    } else if text::same(id, "quit") {
        WindowStep::Quit
    } else {
        WindowStep::Nothing
    }
}

/// What a click on the tray icon asks for: the left button, once released,
/// shows a hidden window and hides a visible one.
pub fn tray_step(left: bool, released: bool, visible: bool) -> (r: WindowStep)
    ensures
        r == (if !(left && released) {
            WindowStep::Nothing
        } else if visible {
            WindowStep::Hide
        } else {
            WindowStep::Show
        }),
{
    if !left || !released {
        WindowStep::Nothing
    } else if visible {
        WindowStep::Hide
    } else {
        WindowStep::Show
    }
}

/// A word from the window is read without the white space around it and in any
/// case; each of the four actions has two spellings, and no other word is one.
pub proof fn lemma_words_of_actions(s: Seq<char>)
    ensures
        ({
            let t = text::trimmed(s);
            let accept = text::spells(t, "accept"@) || text::spells(t, "ok"@);
            let reject = text::spells(t, "reject"@) || text::spells(t, "no"@);
            let stop = text::spells(t, "stop"@) || text::spells(t, "stp"@);
            let stop_all = text::spells(t, "stop_all"@) || text::spells(t, "stopall"@);
            &&& ui_action(s) == Some(Action::Accept { i: None }) <==> accept
            &&& ui_action(s) == Some(Action::Reject { i: None }) <==> reject
            &&& ui_action(s) == Some(Action::Stop { i: None }) <==> stop
            &&& ui_action(s) == Some(Action::StopAll) <==> stop_all
            &&& ui_action(s) is None <==> !accept && !reject && !stop && !stop_all
        }),
{
    let t = text::trimmed(s);
    reveal_strlit("accept");
    reveal_strlit("ok");
    reveal_strlit("reject");
    reveal_strlit("no");
    reveal_strlit("stop");
    reveal_strlit("stp");
    reveal_strlit("stop_all");
    reveal_strlit("stopall");
    assert("accept"@[0] == 'a' && "ok"@[0] == 'o' && "reject"@[0] == 'r' && "no"@[0] == 'n');
    assert("stop"@[0] == 's' && "stp"@[0] == 's' && "stop_all"@[0] == 's');
    assert("stopall"@[0] == 's');
    text::lemma_lowered_spells(t, "accept"@);
    text::lemma_lowered_spells(t, "ok"@);
    text::lemma_lowered_spells(t, "reject"@);
    text::lemma_lowered_spells(t, "no"@);
    text::lemma_lowered_spells(t, "stop"@);
    text::lemma_lowered_spells(t, "stp"@);
    text::lemma_lowered_spells(t, "stop_all"@);
    text::lemma_lowered_spells(t, "stopall"@);
}

/// What is shown is the frame that the host has; before the first one, an empty
/// board.
pub proof fn lemma_frames_are_the_hosts(d: DesktopView)
    ensures
        d.host.board.board matches Some(b) ==> d.board_state() == b,
        d.host.board.led matches Some(f) ==> d.led_frame() == f,
{
}

/// Starting applies what was kept: the settings, and the pins where there are
/// any. The sessions are those of one poll; nothing was opened by it.
pub proof fn lemma_start_applies_what_was_kept(
    h: HostView,
    a: Seq<Answer>,
    settings: DeckSettings,
    pins: Map<usize, Seq<char>>,
    t0: u64,
    t1: u64,
    t2: u64,
)
    ensures
        ({
            let r = started(h, a, settings, pins, t0, t1, t2);
            let polled = host::all_answered(h.board, h.fade, a, t0);
            &&& r.board.auto_fill == settings.auto_fill
            &&& r.fade.after_open_ms == settings.done_ttl_after_open_ms
            &&& r.fade.unopened_ms == settings.done_ttl_unopened_ms
            &&& r.fade.opened == h.fade.opened
            &&& r.board.entries == polled.entries
            &&& r.board.focus == polled.focus
            &&& r.board.slot_count == polled.slot_count
            &&& (forall|k: usize| !pins.contains_key(k)) ==> r.board.pins == polled.pins
            &&& (exists|k: usize| #[trigger] pins.contains_key(k)) ==> r.board.pins == pins
        }),
{
    if forall|k: usize| !pins.contains_key(k) {
        assert(pins =~= Map::<usize, Seq<char>>::empty());
    }
}

/// Kept settings count where there is a place to keep them; else nothing is filled
/// in and a finished session stays for five minutes once opened, and for twelve
/// hours if not.
pub proof fn lemma_settings_at_start(path: Option<Seq<char>>, saved: Option<DeckSettings>)
    ensures
        ({
            let r = kept_settings(path, saved);
            &&& path is Some && saved is Some ==> r == saved->0
            &&& path is None || saved is None ==> !r.auto_fill && r.done_ttl_after_open_ms
                == 300_000 && r.done_ttl_unopened_ms == 43_200_000
        }),
{
}

/// Kept pins count where there is a place to keep them and they can be read.
pub proof fn lemma_pins_at_start(
    pins: Map<usize, Seq<char>>,
    path: Option<Seq<char>>,
    saved: Option<Seq<char>>,
    k: usize,
)
    requires
        kept_pins(pins, path, saved),
    ensures
        path is None || saved is None ==> !pins.contains_key(k),
        path is Some && saved is Some ==> pins::read_from(pins, saved->0),
{
}

/// Pressing a key puts the focus on it. Where it shows a session, that session is
/// marked as opened and its own target is opened; where it shows none, nothing is
/// marked.
pub proof fn lemma_press_opens_the_session_shown(
    h: HostView,
    i: usize,
    t1: u64,
    t2: u64,
    catalogs: Seq<Seq<SnapshotView>>,
)
    ensures
        ({
            let (after, r) = opening(h, i, t1, t2, catalogs);
            let on = links::session_on(after.board.board->0, i);
            &&& i < h.board.slot_count ==> after.board.focus == i
            &&& after.board == (BoardView { focus: after.board.focus, ..h.board }).refreshed(t1)
            &&& r is Ok <==> on is Ok
            &&& on matches Err(e) ==> r == Err::<(BackendId, TargetView), Seq<char>>(e)
                && after.fade == h.fade
            &&& on matches Ok((b, id)) ==> {
                &&& r->Ok_0.0 == b
                &&& r->Ok_0.1 == links::target_of(
                    b,
                    id,
                    links::first_row(host::merged(catalogs), id),
                )
                &&& after.fade == (FadeView {
                    opened: h.fade.opened.insert(b.label() + ":"@ + id, t2),
                    ..h.fade
                })
            }
        }),
{
}

/// The demonstration has a session that waits since half a minute, at high risk,
/// and one that works.
pub proof fn lemma_demo_waits_and_works(now: u64)
    ensures
        ({
            let d = demo_sessions(now);
            &&& d.len() == 2
            &&& d[0].status is Waiting
            &&& d[0].risk == Some(Risk::High)
            &&& now >= 30_000 ==> d[0].waiting_since == Some((now - 30_000) as u64)
            &&& now < 30_000 ==> d[0].waiting_since == Some(0u64)
            &&& d[1].status is Working
            &&& d[1].risk is None
            &&& d[1].waiting_since is None
            &&& d[0].session_id != d[1].session_id
            &&& d[0].updated_at == now
            &&& d[1].updated_at == now
        }),
{
    reveal_strlit("demo_waiting");
    reveal_strlit("demo_working");
    assert("demo_waiting"@[6] == 'a' && "demo_working"@[6] == 'o');
}

/// A service that has started holds the settings that were kept and shows by
/// them, and keeps its files where it was told to.
pub proof fn lemma_started_service_follows_its_settings(
    h: HostView,
    observers: Seq<Box<dyn BackendObserver>>,
    v: DesktopView,
    pins_path: Option<Seq<char>>,
    settings_path: Option<Seq<char>>,
    saved_pins: Option<Seq<char>>,
    saved_settings: Option<DeckSettings>,
)
    requires
        starts(h, observers, v, pins_path, settings_path, saved_pins, saved_settings),
    ensures
        v.pins_path == pins_path,
        v.settings_path == settings_path,
        settings_path is Some && saved_settings is Some ==> v.settings == saved_settings->0,
        v.host.board.auto_fill == v.settings.auto_fill,
        v.host.fade.after_open_ms == v.settings.done_ttl_after_open_ms,
        v.host.fade.unopened_ms == v.settings.done_ttl_unopened_ms,
        v.host.fade.opened == h.fade.opened,
        v.host.board.slot_count == h.board.slot_count,
{
    let (a, pins, t0, t1, t2) = choose|
        a: Seq<Answer>,
        pins: Map<usize, Seq<char>>,
        t0: u64,
        t1: u64,
        t2: u64,
    | #[trigger]
        started(h, a, v.settings, pins, t0, t1, t2) == v.host && host::may_tick(
            observers,
            h.board.pins,
            a,
        ) && kept_pins(pins, pins_path, saved_pins);
    lemma_start_applies_what_was_kept(h, a, v.settings, pins, t0, t1, t2);
    host::lemma_answers_keep_settings(h.board, h.fade, a, t0);
}

/// Where a session is opened every observer was asked for its catalog; where none
/// is, no observer was asked for anything.
pub proof fn lemma_opening_asks_for_catalogs(
    before: Seq<Box<dyn BackendObserver>>,
    after: Seq<Box<dyn BackendObserver>>,
    opened: bool,
    catalogs: Seq<Seq<SnapshotView>>,
) -> (replies: Seq<Result<Seq<SnapshotView>, Seq<char>>>)
    requires
        consulted(before, after, opened, catalogs),
    ensures
        !opened ==> after == before,
        opened ==> {
            &&& replies.len() == before.len()
            &&& forall|j: int| 0 <= j < before.len() ==> before[j].may_list(#[trigger] replies[j])
            &&& catalogs == host::given(replies)
        },
{
    if opened {
        choose|replies: Seq<Result<Seq<SnapshotView>, Seq<char>>>| #[trigger]
            host::may_answer(before, replies) && replies.len() == before.len() && catalogs
                == host::given(replies)
    } else {
        Seq::empty()
    }
}

} // verus!
