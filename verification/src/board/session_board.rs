//! The session board: gathers the sessions of all backends, gives them keys
//! and produces the LED frame and the board state, always both together.
use crate::board::slot_allocator;
use crate::board::slot_allocator::{
    allocate_slots, AllocatedSlot, ScoredSession, ScoredView, SlotAllocatorOptions, SlotView,
};
use crate::board::theme;
use crate::board::theme::{codex_theme, paint, waiting_urgency, ThemeInput, ThemePalette};
use crate::ordering;
use crate::ordering::Rank;
use crate::protocol;
use crate::protocol::{
    BackendId, BoardState, BoardStateView, DeckStatus, LedFrame, LedFrameView, LedFx, LedSlot,
    LedSlotView, PolicyMode, SessionSnapshot, SlotBinding, SlotBindingView, SnapshotView, SLOT_COUNT,
};
use crate::text;
use std::collections::HashMap;
use vstd::prelude::*;

verus! {

/// A session under the backend that reported it.
#[derive(Debug)]
pub struct SessionEntry {
    pub owner: BackendId,
    pub snapshot: SessionSnapshot,
}

/// The content of a `SessionEntry`.
#[verifier::ext_equal]
pub struct EntryView {
    pub owner: BackendId,
    pub snapshot: SnapshotView,
}

impl View for SessionEntry {
    type V = EntryView;

    open spec fn view(&self) -> EntryView {
        EntryView { owner: self.owner, snapshot: self.snapshot@ }
    }
}

/// The contents of a list of entries.
pub open spec fn entry_views(s: Seq<SessionEntry>) -> Seq<EntryView> {
    s.map_values(|x: SessionEntry| x@)
}

/// The entry is the one of session `id` under `owner`.
pub open spec fn keyed(e: EntryView, owner: BackendId, id: Seq<char>) -> bool {
    e.owner == owner && e.snapshot.session_id == id
}

/// Where session `id` of `owner` stands.
pub open spec fn place(s: Seq<EntryView>, owner: BackendId, id: Seq<char>) -> Option<int>
    decreases s.len(),
{
    if s.len() == 0 {
        None
    } else {
        match place(s.drop_last(), owner, id) {
            Some(i) => Some(i),
            None => if keyed(s.last(), owner, id) {
                Some(s.len() - 1)
            } else {
                None
            },
        }
    }
}

/// What is known of session `id` of `owner`.
pub open spec fn known(s: Seq<EntryView>, owner: BackendId, id: Seq<char>) -> Option<SnapshotView> {
    match place(s, owner, id) {
        Some(i) => Some(s[i].snapshot),
        None => None,
    }
}

/// No session has two entries.
pub open spec fn distinct(s: Seq<EntryView>) -> bool {
    forall|i: int, j: int|
        0 <= i < j < s.len() ==> !keyed(
            #[trigger] s[j],
            (#[trigger] s[i]).owner,
            s[i].snapshot.session_id,
        )
}

/// `s` with the entry `e` in place of the one of the same session, or at the end.
pub open spec fn upsert(s: Seq<EntryView>, e: EntryView) -> Seq<EntryView> {
    match place(s, e.owner, e.snapshot.session_id) {
        Some(i) => s.update(i, e),
        None => s.push(e),
    }
}

/// `s` after each snapshot has been put under the backend it names.
pub open spec fn upsert_each(s: Seq<EntryView>, snaps: Seq<SnapshotView>) -> Seq<EntryView>
    decreases snaps.len(),
{
    if snaps.len() == 0 {
        s
    } else {
        let x = snaps.last();
        upsert(upsert_each(s, snaps.drop_last()), EntryView { owner: x.backend, snapshot: x })
    }
}

/// `s` after each snapshot has been put under `owner`.
pub open spec fn upsert_all(s: Seq<EntryView>, owner: BackendId, snaps: Seq<SnapshotView>) -> Seq<
    EntryView,
>
    decreases snaps.len(),
{
    if snaps.len() == 0 {
        s
    } else {
        upsert(
            upsert_all(s, owner, snaps.drop_last()),
            EntryView { owner, snapshot: snaps.last() },
        )
    }
}

/// The entries of `s` that belong to other backends.
pub open spec fn others(s: Seq<EntryView>, owner: BackendId) -> Seq<EntryView>
    decreases s.len(),
{
    if s.len() == 0 {
        s
    } else if s.last().owner != owner {
        others(s.drop_last(), owner).push(s.last())
    } else {
        others(s.drop_last(), owner)
    }
}

/// Some pin, on the board or beyond it, names this session.
pub open spec fn pinned_session(pins: Map<usize, Seq<char>>, id: Seq<char>) -> bool {
    exists|i: usize| #[trigger] pins.contains_key(i) && pins[i] == id
}

/// `s` together with those entries of `old` that are pinned under `owner` and
/// not in `s`.
pub open spec fn keep_pinned(
    s: Seq<EntryView>,
    old: Seq<EntryView>,
    owner: BackendId,
    pins: Map<usize, Seq<char>>,
) -> Seq<EntryView>
    decreases old.len(),
{
    if old.len() == 0 {
        s
    } else {
        let t = keep_pinned(s, old.drop_last(), owner, pins);
        let e = old.last();
        if e.owner == owner && pinned_session(pins, e.snapshot.session_id) && place(
            t,
            owner,
            e.snapshot.session_id,
        ) is None {
            t.push(e)
        } else {
            t
        }
    }
}

/// The entries after a backend has reported `snaps`: its old ones are gone,
/// but for the pinned ones that it no longer reports.
pub open spec fn replaced(
    s: Seq<EntryView>,
    owner: BackendId,
    snaps: Seq<SnapshotView>,
    pins: Map<usize, Seq<char>>,
) -> Seq<EntryView> {
    keep_pinned(upsert_all(others(s, owner), owner, snaps), s, owner, pins)
}

/// How urgent a session is: only a waiting session with a known start is.
pub open spec fn score(s: SnapshotView, now: u64) -> u64 {
    if s.status is Waiting && s.waiting_since is Some {
        theme::urgency(s.waiting_since, s.risk, now) as u64
    } else {
        0
    }
}

/// Rank of a session in a list: priority of the status, then the last update.
pub open spec fn list_rank(s: SnapshotView) -> Rank {
    Rank { first: s.status.spec_priority() as u64, second: s.updated_at, third: 0 }
}

/// How the LED of a key is driven.
pub open spec fn led_of(slot: SlotView, now: u64) -> LedSlotView {
    match slot.session {
        Some(s) => {
            let out = theme::painted(
                ThemeInput {
                    status: s.snapshot.status,
                    risk: s.snapshot.risk,
                    waiting_since: s.snapshot.waiting_since,
                    now,
                },
                theme::codex_palette(),
            );
            LedSlotView { i: slot.i, rgb: out.rgb, br: out.br, fx: out.fx }
        },
        None => LedSlotView { i: slot.i, rgb: None, br: 0, fx: LedFx::Solid },
    }
}

/// What a key is bound to.
pub open spec fn binding_of(slot: SlotView, focus: int) -> SlotBindingView {
    match slot.session {
        Some(s) => SlotBindingView {
            i: slot.i,
            backend: Some(s.snapshot.backend),
            session_id: Some(s.snapshot.session_id),
            title: Some(s.snapshot.title),
            status: s.snapshot.status,
            detail: s.snapshot.detail,
            focused: Some(slot.i == focus),
            pinned: Some(slot.pinned),
        },
        None => SlotBindingView {
            i: slot.i,
            backend: None,
            session_id: None,
            title: None,
            status: DeckStatus::Off,
            detail: None,
            focused: Some(slot.i == focus),
            pinned: Some(slot.pinned),
        },
    }
}

/// The content of a `SessionBoard`.
#[verifier::ext_equal]
pub struct BoardView {
    pub slot_count: int,
    pub entries: Seq<EntryView>,
    pub focus: int,
    pub pins: Map<usize, Seq<char>>,
    pub auto_fill: bool,
    pub mode: PolicyMode,
    pub led: Option<LedFrameView>,
    pub board: Option<BoardStateView>,
}

impl BoardView {
    /// The sessions with their urgency.
    pub open spec fn scored(self, now: u64) -> Seq<ScoredView> {
        self.entries.map_values(
            |e: EntryView| ScoredView { snapshot: e.snapshot, urgency: score(e.snapshot, now) },
        )
    }

    /// What every key shows: the allocation, without the free keys in manual mode.
    pub open spec fn shown(self, now: u64) -> Seq<SlotView> {
        Seq::new(
            self.slot_count as nat,
            |i: int|
                {
                    let slot = slot_allocator::slot_at(
                        self.scored(now),
                        self.pins,
                        self.slot_count,
                        i,
                    );
                    if self.auto_fill || slot.pinned {
                        slot
                    } else {
                        SlotView { session: None, ..slot }
                    }
                },
        )
    }

    /// The LED frame of this board.
    pub open spec fn led_at(self, now: u64) -> LedFrameView {
        LedFrameView {
            msg_type: "leds"@,
            slots: self.shown(now).map_values(|s: SlotView| led_of(s, now)),
        }
    }

    /// The board state of this board.
    pub open spec fn state_at(self, now: u64) -> BoardStateView {
        BoardStateView {
            msg_type: "board"@,
            slots: self.shown(now).map_values(|s: SlotView| binding_of(s, self.focus)),
            focus: self.focus,
            mode: self.mode,
        }
    }

    /// The board with both snapshots brought up to date.
    pub open spec fn refreshed(self, now: u64) -> BoardView {
        BoardView { led: Some(self.led_at(now)), board: Some(self.state_at(now)), ..self }
    }
}

/// The session board.
pub struct SessionBoard {
    slot_count: usize,
    palette: ThemePalette,
    sessions: Vec<SessionEntry>,
    focus: usize,
    pins: HashMap<usize, String>,
    /// When false, only pinned sessions occupy slots (manual bind mode).
    auto_fill: bool,
    mode: PolicyMode,
    last_led: Option<LedFrame>,
    last_board: Option<BoardState>,
}

impl View for SessionBoard {
    type V = BoardView;

    closed spec fn view(&self) -> BoardView {
        BoardView {
            slot_count: self.slot_count as int,
            entries: entry_views(self.sessions@),
            focus: self.focus as int,
            pins: slot_allocator::pin_ids(self.pins@),
            auto_fill: self.auto_fill,
            mode: self.mode,
            led: match self.last_led {
                Some(f) => Some(f@),
                None => None,
            },
            board: match self.last_board {
                Some(b) => Some(b@),
                None => None,
            },
        }
    }
}

/// How urgent a session is.
fn compute_urgency(snapshot: &SessionSnapshot, now: u64) -> (r: u64)
    ensures
        r == score(snapshot@, now),
{
    if snapshot.status != DeckStatus::Waiting || snapshot.waiting_since.is_none() {
        return 0;
    }
    waiting_urgency(snapshot.waiting_since, snapshot.risk, now)
}

/// Where session `id` of `owner` stands.
fn position(s: &Vec<SessionEntry>, owner: BackendId, id: &str) -> (r: Option<usize>)
    ensures
        match r {
            Some(i) => i < s@.len() && place(entry_views(s@), owner, id@) == Some(i as int),
            None => place(entry_views(s@), owner, id@) is None,
        },
{
    let ghost v = entry_views(s@);
    let mut i: usize = 0;
    while i < s.len()
        invariant
            i <= s@.len(),
            v == entry_views(s@),
            place(v.take(i as int), owner, id@) is None,
        decreases s@.len() - i,
    {
        assert(v.take(i + 1).drop_last() == v.take(i as int));
        if s[i].owner == owner && text::same(s[i].snapshot.session_id.as_str(), id) {
            proof {
                lemma_place_prefix(v, owner, id@, i + 1);
            }
            return Some(i);
        }
        i = i + 1;
    }
    assert(v.take(i as int) == v);
    None
}

proof fn lemma_place_prefix(s: Seq<EntryView>, owner: BackendId, id: Seq<char>, n: int)
    requires
        0 <= n <= s.len(),
        place(s.take(n), owner, id) is Some,
    ensures
        place(s, owner, id) == place(s.take(n), owner, id),
    decreases s.len() - n,
{
    if n < s.len() {
        assert(s.take(n + 1).drop_last() == s.take(n));
        lemma_place_prefix(s, owner, id, n + 1);
    } else {
        assert(s.take(n) == s);
    }
}

/// Puts an entry in place of the one of the same session, or at the end.
fn put(s: &mut Vec<SessionEntry>, e: SessionEntry)
    ensures
        entry_views(final(s)@) == upsert(entry_views(old(s)@), e@),
{
    match position(s, e.owner, e.snapshot.session_id.as_str()) {
        Some(i) => {
            s.set(i, e);
            assert(entry_views(s@) =~= entry_views(old(s)@).update(i as int, e@));
        },
        None => {
            s.push(e);
            assert(entry_views(s@) =~= entry_views(old(s)@).push(e@));
        },
    }
}

impl Default for SessionBoard {
    fn default() -> (r: SessionBoard)
        ensures
            r.wf(),
            r@ == (BoardView {
                slot_count: SLOT_COUNT as int,
                entries: Seq::empty(),
                focus: 0,
                pins: Map::empty(),
                auto_fill: true,
                mode: PolicyMode::Act,
                led: None,
                board: None,
            }),
    {
        SessionBoard::new(SLOT_COUNT)
    }
}

impl SessionBoard {
    /// No session has two entries, and the focus is on the board.
    pub closed spec fn wf(&self) -> bool {
        &&& distinct(entry_views(self.sessions@))
        &&& self.focus == 0 || self.focus < self.slot_count
        &&& self.palette == theme::codex_palette()
    }

    /// An empty board of `slot_count` keys that fills free keys by itself.
    pub fn new(slot_count: usize) -> (r: SessionBoard)
        ensures
            r.wf(),
            r@ == (BoardView {
                slot_count: slot_count as int,
                entries: Seq::empty(),
                focus: 0,
                pins: Map::empty(),
                auto_fill: true,
                mode: PolicyMode::Act,
                led: None,
                board: None,
            }),
    {
        let r = SessionBoard {
            slot_count,
            palette: codex_theme(),
            sessions: Vec::new(),
            focus: 0,
            pins: HashMap::new(),
            auto_fill: true,
            mode: PolicyMode::Act,
            last_led: None,
            last_board: None,
        };
        assert(r@.entries =~= Seq::empty());
        assert(r@.pins =~= Map::empty());
        r
    }

    /// The sessions with their urgency.
    fn scored_sessions(&self, now: u64) -> (r: Vec<ScoredSession>)
        ensures
            slot_allocator::scored(r@) == self@.scored(now),
    {
        let mut out: Vec<ScoredSession> = Vec::new();
        let mut i: usize = 0;
        while i < self.sessions.len()
            invariant
                i <= self.sessions@.len(),
                out@.len() == i,
                forall|j: int|
                    0 <= j < i ==> (#[trigger] out@[j])@ == (ScoredView {
                        snapshot: self.sessions@[j].snapshot@,
                        urgency: score(self.sessions@[j].snapshot@, now),
                    }),
            decreases self.sessions@.len() - i,
        {
            let s = &self.sessions[i].snapshot;
            out.push(ScoredSession { urgency: compute_urgency(s, now), snapshot: s.clone() });
            i = i + 1;
        }
        assert(slot_allocator::scored(out@) =~= self@.scored(now));
        out
    }

    /// The LED frame of these keys.
    fn build_led_frame(&self, allocated: &Vec<AllocatedSlot>, now: u64) -> (r: LedFrame)
        requires
            self.wf(),
        ensures
            r@.msg_type == "leds"@,
            r@.slots == slot_allocator::slot_views(allocated@).map_values(
                |s: SlotView| led_of(s, now),
            ),
    {
        let mut slots: Vec<LedSlot> = Vec::new();
        let mut i: usize = 0;
        while i < allocated.len()
            invariant
                i <= allocated@.len(),
                self.palette == theme::codex_palette(),
                slots@.len() == i,
                forall|j: int|
                    0 <= j < i ==> (#[trigger] slots@[j])@ == led_of(allocated@[j]@, now),
            decreases allocated@.len() - i,
        {
            let slot = &allocated[i];
            let led = match &slot.session {
                Some(session) => {
                    proof {
                        theme::lemma_codex_theme_paints(session.snapshot.status);
                    }
                    let out = paint(
                        &ThemeInput {
                            status: session.snapshot.status,
                            risk: session.snapshot.risk,
                            waiting_since: session.snapshot.waiting_since,
                            now,
                        },
                        &self.palette,
                    );
                    LedSlot { i: slot.i, rgb: out.rgb, br: out.br, fx: out.fx }
                },
                None => LedSlot { i: slot.i, rgb: None, br: 0, fx: LedFx::Solid },
            };
            slots.push(led);
            i = i + 1;
        }
        let r = LedFrame::new(slots);
        assert(r@.slots =~= slot_allocator::slot_views(allocated@).map_values(
            |s: SlotView| led_of(s, now),
        ));
        r
    }

    /// The board state of these keys.
    fn build_board_state(&self, allocated: &Vec<AllocatedSlot>) -> (r: BoardState)
        ensures
            r@ == (BoardStateView {
                msg_type: "board"@,
                slots: slot_allocator::slot_views(allocated@).map_values(
                    |s: SlotView| binding_of(s, self@.focus),
                ),
                focus: self@.focus,
                mode: self@.mode,
            }),
    {
        let mut slots: Vec<SlotBinding> = Vec::new();
        let mut i: usize = 0;
        while i < allocated.len()
            invariant
                i <= allocated@.len(),
                slots@.len() == i,
                forall|j: int|
                    0 <= j < i ==> (#[trigger] slots@[j])@ == binding_of(
                        allocated@[j]@,
                        self.focus as int,
                    ),
            decreases allocated@.len() - i,
        {
            let slot = &allocated[i];
            let b = match &slot.session {
                Some(session) => SlotBinding {
                    i: slot.i,
                    backend: Some(session.snapshot.backend),
                    session_id: Some(session.snapshot.session_id.clone()),
                    title: Some(session.snapshot.title.clone()),
                    status: session.snapshot.status,
                    detail: text::clone_opt(&session.snapshot.detail),
                    focused: Some(slot.i == self.focus),
                    pinned: Some(slot.pinned),
                },
                None => SlotBinding {
                    i: slot.i,
                    backend: None,
                    session_id: None,
                    title: None,
                    status: DeckStatus::Off,
                    detail: None,
                    focused: Some(slot.i == self.focus),
                    pinned: Some(slot.pinned),
                },
            };
            slots.push(b);
            i = i + 1;
        }
        let r = BoardState::new(slots, self.focus, self.mode);
        assert(r@.slots =~= slot_allocator::slot_views(allocated@).map_values(
            |s: SlotView| binding_of(s, self@.focus),
        ));
        r
    }

    /// Brings the LED frame and the board state up to date. Sessions are never
    /// dropped here, however old they are.
    pub fn recompute(&mut self, now: u64)
        requires
            old(self).wf(),
        ensures
            final(self).wf(),
            final(self)@ == old(self)@.refreshed(now),
    {
        let scored = self.scored_sessions(now);
        let opts = SlotAllocatorOptions {
            slot_count: self.slot_count,
            focus: Some(self.focus),
            pins: self.pins.clone(),
        };
        let mut allocated = allocate_slots(scored.as_slice(), &opts, now);
        let ghost full = slot_allocator::slot_views(allocated@);
        if !self.auto_fill {
            let mut i: usize = 0;
            while i < allocated.len()
                invariant
                    i <= allocated@.len(),
                    allocated@.len() == full.len(),
                    forall|j: int|
                        0 <= j < i ==> (#[trigger] allocated@[j])@ == (if full[j].pinned {
                            full[j]
                        } else {
                            SlotView { session: None, ..full[j] }
                        }),
                    forall|j: int| i <= j < full.len() ==> (#[trigger] allocated@[j])@ == full[j],
                decreases allocated@.len() - i,
            {
                if !allocated[i].pinned {
                    let at: usize = allocated[i].i;
                    allocated.set(i, AllocatedSlot { i: at, session: None, pinned: false });
                }
                i = i + 1;
            }
        }
        assert(slot_allocator::slot_views(allocated@) =~= self@.shown(now));
        let led = self.build_led_frame(&allocated, now);
        let board = self.build_board_state(&allocated);
        self.last_led = Some(led);
        self.last_board = Some(board);
    }

    /// Turns the filling of free keys on or off.
    pub fn set_auto_fill(&mut self, enabled: bool, now: u64)
        requires
            old(self).wf(),
        ensures
            final(self).wf(),
            final(self)@ == (BoardView { auto_fill: enabled, ..old(self)@ }).refreshed(now),
    {
        self.auto_fill = enabled;
        self.recompute(now);
    }

    /// Whether free keys are filled.
    pub fn auto_fill(&self) -> (r: bool)
        ensures
            r == self@.auto_fill,
    {
        self.auto_fill
    }

    /// All known sessions, by priority of their status, then the latest first.
    pub fn list_sessions(&self) -> (r: Vec<SessionSnapshot>)
        ensures
            protocol::snapshots(r@) == ordering::ranked(
                self@.entries.map_values(|e: EntryView| e.snapshot),
                |s: SnapshotView| list_rank(s),
            ),
    {
        let mut all: Vec<SessionSnapshot> = Vec::new();
        let mut i: usize = 0;
        while i < self.sessions.len()
            invariant
                i <= self.sessions@.len(),
                all@.len() == i,
                forall|j: int| 0 <= j < i ==> #[trigger] all@[j] == self.sessions@[j].snapshot,
            decreases self.sessions@.len() - i,
        {
            all.push(self.sessions[i].snapshot.clone());
            i = i + 1;
        }
        assert(protocol::snapshots(all@) =~= self@.entries.map_values(|e: EntryView| e.snapshot));
        rank_list(&all)
    }

    /// Puts one session under the backend it names, without touching the others.
    pub fn upsert_session(&mut self, snapshot: SessionSnapshot, now: u64)
        requires
            old(self).wf(),
        ensures
            final(self).wf(),
            final(self)@ == (BoardView {
                entries: upsert(
                    old(self)@.entries,
                    EntryView { owner: snapshot.backend, snapshot: snapshot@ },
                ),
                ..old(self)@
            }).refreshed(now),
    {
        let owner = snapshot.backend;
        proof {
            lemma_upsert(entry_views(self.sessions@), EntryView { owner, snapshot: snapshot@ });
        }
        put(&mut self.sessions, SessionEntry { owner, snapshot });
        self.recompute(now);
    }

    /// Puts each session under the backend it names. Nothing at all happens
    /// when there is none.
    pub fn upsert_sessions(&mut self, snapshots: Vec<SessionSnapshot>, now: u64)
        requires
            old(self).wf(),
        ensures
            final(self).wf(),
            final(self)@ == (if snapshots@.len() == 0 {
                old(self)@
            } else {
                (BoardView {
                    entries: upsert_each(
                        old(self)@.entries,
                        protocol::snapshots(snapshots@),
                    ),
                    ..old(self)@
                }).refreshed(now)
            }),
    {
        if snapshots.len() == 0 {
            return ;
        }
        let ghost views = protocol::snapshots(snapshots@);
        let ghost start = entry_views(self.sessions@);
        let ghost before = *self;
        let mut i: usize = 0;
        assert(views.take(0) == Seq::<SnapshotView>::empty());
        while i < snapshots.len()
            invariant
                i <= snapshots@.len(),
                views == protocol::snapshots(snapshots@),
                entry_views(self.sessions@) == upsert_each(start, views.take(i as int)),
                distinct(entry_views(self.sessions@)),
                *self == (SessionBoard { sessions: self.sessions, ..before }),
            decreases snapshots@.len() - i,
        {
            let x = snapshots[i].clone();
            let owner = x.backend;
            proof {
                lemma_upsert(entry_views(self.sessions@), EntryView { owner, snapshot: x@ });
                assert(views.take(i + 1).drop_last() == views.take(i as int));
                assert(views.take(i + 1).last() == x@);
            }
            put(&mut self.sessions, SessionEntry { owner, snapshot: x });
            i = i + 1;
        }
        assert(views.take(i as int) == views);
        self.recompute(now);
    }

    /// The first known session with this id.
    pub fn find_session(&self, session_id: &str) -> (r: Option<&SessionSnapshot>)
        ensures
            (match r {
                Some(s) => Some(s@),
                None => None,
            }) == first_with_id(self@.entries, session_id@),
    {
        let ghost v = self@.entries;
        let mut i: usize = 0;
        while i < self.sessions.len()
            invariant
                i <= self.sessions@.len(),
                v == entry_views(self.sessions@),
                first_with_id(v.take(i as int), session_id@) is None,
            decreases self.sessions@.len() - i,
        {
            assert(v.take(i + 1).drop_last() == v.take(i as int));
            if text::same(self.sessions[i].snapshot.session_id.as_str(), session_id) {
                proof {
                    lemma_first_with_id_prefix(v, session_id@, i + 1);
                }
                return Some(&self.sessions[i].snapshot);
            }
            i = i + 1;
        }
        assert(v.take(i as int) == v);
        None
    }

    /// Whether some pin names this session.
    fn is_pinned_session(&self, session_id: &str) -> (r: bool)
        ensures
            r == pinned_session(self@.pins, session_id@),
    {
        broadcast use vstd::std_specs::hash::group_hash_axioms;

        let ghost ids = self@.pins;
        for id in it: self.pins.values()
            invariant
                ids == slot_allocator::pin_ids(self.pins@),
                it.seq().unref().to_set() == self.pins@.values(),
                forall|j: int| 0 <= j < it.index() ==> (#[trigger] it.seq()[j])@ != session_id@,
        {
            if text::same(id.as_str(), session_id) {
                proof {
                    let ghost vals = it.seq().unref();
                    assert(vals[it.index() as int] == *id);
                    assert(vals.to_set().contains(*id));
                    let i = choose|i: usize| #[trigger] self.pins@.contains_key(i) && self.pins@[i] == *id;
                    assert(ids.contains_key(i) && ids[i] == session_id@);
                }
                return true;
            }
        }
        proof {
            if pinned_session(ids, session_id@) {
                let i = choose|i: usize| #[trigger] ids.contains_key(i) && ids[i] == session_id@;
                assert(self.pins@.contains_key(i));
                assert(self.pins@.values().contains(self.pins@[i]));
            }
        }
        false
    }

    /// The ids that are pinned to some key, on the board or beyond it.
    pub fn pinned_ids(&self) -> (r: Vec<String>)
        ensures
            forall|id: Seq<char>| #[trigger]
                pinned_session(self@.pins, id) <==> exists|j: int|
                    0 <= j < r@.len() && (#[trigger] r@[j])@ == id,
            r@.len() == 0 <==> self@.pins =~= Map::<usize, Seq<char>>::empty(),
    {
        broadcast use vstd::std_specs::hash::group_hash_axioms;

        let ghost ids = self@.pins;
        let mut out: Vec<String> = Vec::new();
        for id in it: self.pins.values()
            invariant
                it.seq().unref().to_set() == self.pins@.values(),
                out@ == it.seq().unref().take(it.index() as int),
                it.index() == it.seq().len() ==> out@.to_set() == self.pins@.values(),
        {
            assert(it.seq().unref()[it.index() as int] == *id);
            out.push(id.clone());
            assert(it.seq().unref().take(it.index() + 1) == it.seq().unref().take(
                it.index() as int,
            ).push(*id));
            assert(it.seq().unref().take(it.seq().len() as int) == it.seq().unref());
        }
        proof {
            assert forall|id: Seq<char>| #[trigger] pinned_session(ids, id) <==> exists|j: int|
                0 <= j < out@.len() && (#[trigger] out@[j])@ == id by {
                if pinned_session(ids, id) {
                    let i = choose|i: usize| #[trigger] ids.contains_key(i) && ids[i] == id;
                    assert(self.pins@.contains_key(i));
                    assert(self.pins@.values().contains(self.pins@[i]));
                    assert(out@.to_set().contains(self.pins@[i]));
                    let j = choose|j: int| 0 <= j < out@.len() && out@[j] == self.pins@[i];
                    assert(out@[j]@ == id);
                }
                if exists|j: int| 0 <= j < out@.len() && (#[trigger] out@[j])@ == id {
                    let j = choose|j: int| 0 <= j < out@.len() && (#[trigger] out@[j])@ == id;
                    assert(out@.to_set().contains(out@[j]));
                    let i = choose|i: usize| #[trigger]
                        self.pins@.contains_key(i) && self.pins@[i] == out@[j];
                    assert(ids.contains_key(i) && ids[i] == id);
                }
            }
            if out@.len() == 0 {
                assert forall|i: usize| !ids.contains_key(i) by {
                    if ids.contains_key(i) {
                        assert(pinned_session(ids, ids[i]));
                    }
                }
            } else {
                assert(pinned_session(ids, out@[0]@));
            }
        }
        out
    }

    /// Moves the focus to key `i`; a key that is not on the board is ignored.
    /// The snapshots show the new focus from the next change on.
    pub fn set_focus(&mut self, i: usize)
        requires
            old(self).wf(),
        ensures
            final(self).wf(),
            final(self)@ == (if i < old(self)@.slot_count {
                BoardView { focus: i as int, ..old(self)@ }
            } else {
                old(self)@
            }),
    {
        if i < self.slot_count {
            self.focus = i;
        }
    }

    /// The key that has the focus.
    pub fn focus(&self) -> (r: usize)
        ensures
            r == self@.focus,
    {
        self.focus
    }

    /// Pins a session to key `i`, or unpins the key when `session_id` is None.
    /// A key that is not on the board is ignored.
    pub fn set_pin(&mut self, i: usize, session_id: Option<String>, now: u64)
        requires
            old(self).wf(),
        ensures
            final(self).wf(),
            final(self)@ == (if i < old(self)@.slot_count {
                (BoardView {
                    pins: match session_id {
                        Some(id) => old(self)@.pins.insert(i, id@),
                        None => old(self)@.pins.remove(i),
                    },
                    ..old(self)@
                }).refreshed(now)
            } else {
                old(self)@
            }),
    {
        broadcast use vstd::std_specs::hash::group_hash_axioms;

        if i >= self.slot_count {
            return ;
        }
        let ghost before = self.pins@;
        match session_id {
            Some(id) => {
                let ghost idv = id@;
                self.pins.insert(i, id);
                assert(slot_allocator::pin_ids(self.pins@) =~= slot_allocator::pin_ids(
                    before,
                ).insert(i, idv));
            },
            None => {
                self.pins.remove(&i);
                assert(slot_allocator::pin_ids(self.pins@) =~= slot_allocator::pin_ids(
                    before,
                ).remove(i));
            },
        }
        self.recompute(now);
    }

    /// The pins: key number to session id.
    pub fn pins(&self) -> (r: &HashMap<usize, String>)
        ensures
            slot_allocator::pin_ids(r@) == self@.pins,
    {
        &self.pins
    }

    /// Replaces all pins.
    pub fn set_pins(&mut self, pins: HashMap<usize, String>, now: u64)
        requires
            old(self).wf(),
        ensures
            final(self).wf(),
            final(self)@ == (BoardView {
                pins: slot_allocator::pin_ids(pins@),
                ..old(self)@
            }).refreshed(now),
    {
        self.pins = pins;
        self.recompute(now);
    }

    /// Takes over what a backend reports: its sessions are replaced by
    /// `snapshots`, but pinned ones that it no longer reports stay.
    pub fn replace_backend_sessions(
        &mut self,
        backend: BackendId,
        snapshots: Vec<SessionSnapshot>,
        now: u64,
    )
        requires
            old(self).wf(),
        ensures
            final(self).wf(),
            final(self)@ == (BoardView {
                entries: replaced(
                    old(self)@.entries,
                    backend,
                    protocol::snapshots(snapshots@),
                    old(self)@.pins,
                ),
                ..old(self)@
            }).refreshed(now),
    {
        let ghost start = self@.entries;
        let ghost ids = self@.pins;
        let mut next: Vec<SessionEntry> = Vec::new();
        let mut i: usize = 0;
        assert(start.take(0) == Seq::<EntryView>::empty());
        assert(entry_views(next@) =~= others(start.take(0), backend));
        while i < self.sessions.len()
            invariant
                i <= self.sessions@.len(),
                start == entry_views(self.sessions@),
                entry_views(next@) == others(start.take(i as int), backend),
            decreases self.sessions@.len() - i,
        {
            assert(start.take(i + 1).drop_last() == start.take(i as int));
            if self.sessions[i].owner != backend {
                let ghost had = next@;
                next.push(
                    SessionEntry {
                        owner: self.sessions[i].owner,
                        snapshot: self.sessions[i].snapshot.clone(),
                    },
                );
                assert(entry_views(next@) =~= entry_views(had).push(start[i as int]));
            }
            i = i + 1;
        }
        assert(start.take(i as int) == start);
        proof {
            lemma_others(start, backend);
        }
        let ghost rest = others(start, backend);
        let ghost views = protocol::snapshots(snapshots@);
        let mut k: usize = 0;
        assert(views.take(0) == Seq::<SnapshotView>::empty());
        while k < snapshots.len()
            invariant
                k <= snapshots@.len(),
                views == protocol::snapshots(snapshots@),
                entry_views(next@) == upsert_all(rest, backend, views.take(k as int)),
                distinct(entry_views(next@)),
            decreases snapshots@.len() - k,
        {
            let x = snapshots[k].clone();
            proof {
                lemma_upsert(entry_views(next@), EntryView { owner: backend, snapshot: x@ });
                assert(views.take(k + 1).drop_last() == views.take(k as int));
                assert(views.take(k + 1).last() == x@);
            }
            put(&mut next, SessionEntry { owner: backend, snapshot: x });
            k = k + 1;
        }
        assert(views.take(k as int) == views);
        let ghost fresh = upsert_all(rest, backend, views);
        let mut m: usize = 0;
        assert(start.take(0) == Seq::<EntryView>::empty());
        while m < self.sessions.len()
            invariant
                m <= self.sessions@.len(),
                start == entry_views(self.sessions@),
                ids == self@.pins,
                entry_views(next@) == keep_pinned(fresh, start.take(m as int), backend, ids),
                distinct(entry_views(next@)),
            decreases self.sessions@.len() - m,
        {
            assert(start.take(m + 1).drop_last() == start.take(m as int));
            let e = &self.sessions[m];
            assert(e@ == start[m as int]);
            if e.owner == backend && self.is_pinned_session(e.snapshot.session_id.as_str())
                && position(&next, backend, e.snapshot.session_id.as_str()).is_none() {
                let ghost had = next@;
                proof {
                    lemma_upsert(entry_views(had), e@);
                }
                next.push(SessionEntry { owner: e.owner, snapshot: e.snapshot.clone() });
                assert(entry_views(next@) =~= entry_views(had).push(e@));
            }
            m = m + 1;
        }
        assert(start.take(m as int) == start);
        self.sessions = next;
        self.recompute(now);
    }

    /// The latest LED frame.
    pub fn led_frame(&self) -> (r: Option<&LedFrame>)
        ensures
            (match r {
                Some(f) => Some(f@),
                None => None,
            }) == self@.led,
    {
        self.last_led.as_ref()
    }

    /// The latest board state.
    pub fn board_state(&self) -> (r: Option<&BoardState>)
        ensures
            (match r {
                Some(b) => Some(b@),
                None => None,
            }) == self@.board,
    {
        self.last_board.as_ref()
    }
}

/// The first session with this id, whichever backend reports it.
pub open spec fn first_with_id(s: Seq<EntryView>, id: Seq<char>) -> Option<SnapshotView>
    decreases s.len(),
{
    if s.len() == 0 {
        None
    } else {
        match first_with_id(s.drop_last(), id) {
            Some(x) => Some(x),
            None => if s.last().snapshot.session_id == id {
                Some(s.last().snapshot)
            } else {
                None
            },
        }
    }
}

proof fn lemma_first_with_id_prefix(s: Seq<EntryView>, id: Seq<char>, n: int)
    requires
        0 <= n <= s.len(),
        first_with_id(s.take(n), id) is Some,
    ensures
        first_with_id(s, id) == first_with_id(s.take(n), id),
    decreases s.len() - n,
{
    if n < s.len() {
        assert(s.take(n + 1).drop_last() == s.take(n));
        lemma_first_with_id_prefix(s, id, n + 1);
    } else {
        assert(s.take(n) == s);
    }
}

/// A list of snapshots by priority of their status, then the latest first.
fn rank_list(all: &Vec<SessionSnapshot>) -> (r: Vec<SessionSnapshot>)
    ensures
        protocol::snapshots(r@) == ordering::ranked(
            protocol::snapshots(all@),
            |s: SnapshotView| list_rank(s),
        ),
{
    let ghost key = |s: SnapshotView| list_rank(s);
    let ghost views = protocol::snapshots(all@);
    let mut ranks: Vec<Rank> = Vec::new();
    let mut i: usize = 0;
    while i < all.len()
        invariant
            i <= all@.len(),
            ranks@.len() == i,
            forall|j: int| 0 <= j < i ==> #[trigger] ranks@[j] == list_rank(all@[j]@),
        decreases all@.len() - i,
    {
        ranks.push(
            Rank { first: all[i].status.priority() as u64, second: all[i].updated_at, third: 0 },
        );
        i = i + 1;
    }
    assert(ranks@ =~= views.map_values(key));
    let p = ordering::order(&ranks);
    let ghost order = ordering::as_ints(p@);
    assert forall|b: int| 0 <= b < p@.len() implies 0 <= #[trigger] p@[b] < all@.len() by {
        assert(0 <= order[b] < ranks@.len());
    }
    let mut out: Vec<SessionSnapshot> = Vec::new();
    let mut a: usize = 0;
    while a < p.len()
        invariant
            a <= p@.len(),
            out@.len() == a,
            forall|b: int| 0 <= b < p@.len() ==> 0 <= #[trigger] p@[b] < all@.len(),
            forall|b: int| 0 <= b < a ==> #[trigger] out@[b] == all@[p@[b] as int],
        decreases p@.len() - a,
    {
        out.push(all[p[a]].clone());
        a = a + 1;
    }
    assert(protocol::snapshots(out@) =~= ordering::pick(views, order));
    out
}

proof fn lemma_place(s: Seq<EntryView>, owner: BackendId, id: Seq<char>)
    ensures
        match place(s, owner, id) {
            Some(i) => 0 <= i < s.len() && keyed(s[i], owner, id),
            None => forall|i: int| 0 <= i < s.len() ==> !keyed(#[trigger] s[i], owner, id),
        },
    decreases s.len(),
{
    if s.len() > 0 {
        let t = s.drop_last();
        lemma_place(t, owner, id);
        if place(s, owner, id) is None {
            assert forall|i: int| 0 <= i < s.len() implies !keyed(#[trigger] s[i], owner, id) by {
                if i < t.len() {
                    assert(!keyed(t[i], owner, id));
                }
            }
        }
    }
}

/// In a list without double entries, an entry stands where it is looked up.
proof fn lemma_place_is(s: Seq<EntryView>, i: int)
    requires
        distinct(s),
        0 <= i < s.len(),
    ensures
        place(s, s[i].owner, s[i].snapshot.session_id) == Some(i),
{
    let owner = s[i].owner;
    let id = s[i].snapshot.session_id;
    lemma_place(s, owner, id);
    let j = place(s, owner, id)->0;
    if j < i {
        assert(!keyed(s[i], s[j].owner, s[j].snapshot.session_id));
    } else if i < j {
        assert(!keyed(s[j], s[i].owner, s[i].snapshot.session_id));
    }
}

/// Putting an entry leaves no double entry; the session is then known as put,
/// and every other session is known as before.
pub proof fn lemma_upsert(s: Seq<EntryView>, e: EntryView)
    requires
        distinct(s),
    ensures
        distinct(upsert(s, e)),
        known(upsert(s, e), e.owner, e.snapshot.session_id) == Some(e.snapshot),
        forall|o: BackendId, id: Seq<char>|
            !keyed(e, o, id) ==> #[trigger] known(upsert(s, e), o, id) == known(s, o, id),
{
    let id = e.snapshot.session_id;
    let t = upsert(s, e);
    lemma_place(s, e.owner, id);
    let at = match place(s, e.owner, id) {
        Some(i) => i,
        None => s.len() as int,
    };
    assert(t[at] == e);
    assert forall|i: int, j: int| 0 <= i < j < t.len() implies !keyed(
        #[trigger] t[j],
        (#[trigger] t[i]).owner,
        t[i].snapshot.session_id,
    ) by {
        if at < s.len() {
            assert(!keyed(s[j], s[i].owner, s[i].snapshot.session_id));
        } else if j < s.len() {
            assert(!keyed(s[j], s[i].owner, s[i].snapshot.session_id));
        } else {
            assert(!keyed(s[i], e.owner, id));
        }
    }
    lemma_place_is(t, at);
    assert forall|o: BackendId, x: Seq<char>| !keyed(e, o, x) implies #[trigger] known(t, o, x)
        == known(s, o, x) by {
        lemma_place(s, o, x);
        lemma_place(t, o, x);
        match place(s, o, x) {
            Some(i) => {
                assert(i != at);
                assert(t[i] == s[i]);
                lemma_place_is(t, i);
            },
            None => {
                if place(t, o, x) is Some {
                    let k = place(t, o, x)->0;
                    assert(k != at);
                    assert(t[k] == s[k]);
                }
            },
        }
    }
}

proof fn lemma_others(s: Seq<EntryView>, owner: BackendId)
    requires
        distinct(s),
    ensures
        distinct(others(s, owner)),
        forall|i: int|
            0 <= i < others(s, owner).len() ==> (#[trigger] others(s, owner)[i]).owner != owner
                && s.contains(others(s, owner)[i]),
        forall|o: BackendId, id: Seq<char>| #[trigger]
            known(others(s, owner), o, id) == if o == owner {
                None
            } else {
                known(s, o, id)
            },
    decreases s.len(),
{
    if s.len() > 0 {
        let t = s.drop_last();
        let e = s.last();
        assert forall|i: int, j: int| 0 <= i < j < t.len() implies !keyed(
            #[trigger] t[j],
            (#[trigger] t[i]).owner,
            t[i].snapshot.session_id,
        ) by {
            assert(!keyed(s[j], s[i].owner, s[i].snapshot.session_id));
        }
        lemma_others(t, owner);
        let r0 = others(t, owner);
        let r = others(s, owner);
        assert forall|i: int| 0 <= i < r.len() implies (#[trigger] r[i]).owner != owner
            && s.contains(r[i]) by {
            if i < r0.len() {
                assert(t.contains(r0[i]));
                let k = choose|k: int| 0 <= k < t.len() && t[k] == r0[i];
                assert(s[k] == r[i]);
            } else {
                assert(s[s.len() - 1] == r[i]);
            }
        }
        assert forall|i: int, j: int| 0 <= i < j < r.len() implies !keyed(
            #[trigger] r[j],
            (#[trigger] r[i]).owner,
            r[i].snapshot.session_id,
        ) by {
            if j < r0.len() {
                assert(!keyed(r0[j], r0[i].owner, r0[i].snapshot.session_id));
            } else {
                assert(t.contains(r0[i]));
                let k = choose|k: int| 0 <= k < t.len() && t[k] == r0[i];
                assert(s[k] == r0[i]);
                assert(!keyed(s[s.len() - 1], s[k].owner, s[k].snapshot.session_id));
            }
        }
        assert forall|o: BackendId, id: Seq<char>| #[trigger] known(r, o, id) == (if o == owner {
            None
        } else {
            known(s, o, id)
        }) by {
            assert(known(r0, o, id) == if o == owner {
                None
            } else {
                known(t, o, id)
            });
            lemma_place(r0, o, id);
            lemma_place(t, o, id);
            if e.owner != owner {
                assert(r.drop_last() == r0);
            }
        }
    }
}

/// The last of these snapshots with an id.
pub open spec fn last_reported(snaps: Seq<SnapshotView>, id: Seq<char>) -> Option<SnapshotView>
    decreases snaps.len(),
{
    if snaps.len() == 0 {
        None
    } else if snaps.last().session_id == id {
        Some(snaps.last())
    } else {
        last_reported(snaps.drop_last(), id)
    }
}

proof fn lemma_upsert_all(s: Seq<EntryView>, owner: BackendId, snaps: Seq<SnapshotView>)
    requires
        distinct(s),
    ensures
        distinct(upsert_all(s, owner, snaps)),
        forall|o: BackendId, id: Seq<char>| #[trigger]
            known(upsert_all(s, owner, snaps), o, id) == if o == owner && last_reported(
                snaps,
                id,
            ) is Some {
                last_reported(snaps, id)
            } else {
                known(s, o, id)
            },
    decreases snaps.len(),
{
    if snaps.len() > 0 {
        lemma_upsert_all(s, owner, snaps.drop_last());
        let t = upsert_all(s, owner, snaps.drop_last());
        let e = EntryView { owner, snapshot: snaps.last() };
        lemma_upsert(t, e);
        assert forall|o: BackendId, id: Seq<char>| #[trigger]
            known(upsert_all(s, owner, snaps), o, id) == (if o == owner && last_reported(
                snaps,
                id,
            ) is Some {
                last_reported(snaps, id)
            } else {
                known(s, o, id)
            }) by {
            if keyed(e, o, id) {
            } else {
                assert(known(upsert(t, e), o, id) == known(t, o, id));
            }
        }
    }
}

/// The last of these snapshots with an id, among those of one backend.
pub open spec fn last_of_backend(
    snaps: Seq<SnapshotView>,
    backend: BackendId,
    id: Seq<char>,
) -> Option<SnapshotView>
    decreases snaps.len(),
{
    if snaps.len() == 0 {
        None
    } else if snaps.last().backend == backend && snaps.last().session_id == id {
        Some(snaps.last())
    } else {
        last_of_backend(snaps.drop_last(), backend, id)
    }
}

/// What is known after several sessions have been put: those as put, the last
/// one of an id counting, and all others as before.
pub proof fn lemma_upsert_each(
    s: Seq<EntryView>,
    snaps: Seq<SnapshotView>,
    o: BackendId,
    id: Seq<char>,
)
    requires
        distinct(s),
    ensures
        distinct(upsert_each(s, snaps)),
        known(upsert_each(s, snaps), o, id) == (if last_of_backend(snaps, o, id) is Some {
            last_of_backend(snaps, o, id)
        } else {
            known(s, o, id)
        }),
    decreases snaps.len(),
{
    if snaps.len() > 0 {
        lemma_upsert_each(s, snaps.drop_last(), o, id);
        let t = upsert_each(s, snaps.drop_last());
        let e = EntryView { owner: snaps.last().backend, snapshot: snaps.last() };
        lemma_upsert(t, e);
        if !keyed(e, o, id) {
            assert(known(upsert(t, e), o, id) == known(t, o, id));
        }
    }
}

proof fn lemma_keep_pinned(
    s: Seq<EntryView>,
    old: Seq<EntryView>,
    owner: BackendId,
    pins: Map<usize, Seq<char>>,
)
    requires
        distinct(s),
        distinct(old),
    ensures
        distinct(keep_pinned(s, old, owner, pins)),
        forall|o: BackendId, id: Seq<char>| #[trigger]
            known(keep_pinned(s, old, owner, pins), o, id) == if known(s, o, id) is None && o
                == owner && pinned_session(pins, id) {
                known(old, o, id)
            } else {
                known(s, o, id)
            },
    decreases old.len(),
{
    if old.len() > 0 {
        let rest = old.drop_last();
        let e = old.last();
        assert forall|i: int, j: int| 0 <= i < j < rest.len() implies !keyed(
            #[trigger] rest[j],
            (#[trigger] rest[i]).owner,
            rest[i].snapshot.session_id,
        ) by {
            assert(!keyed(old[j], old[i].owner, old[i].snapshot.session_id));
        }
        lemma_keep_pinned(s, rest, owner, pins);
        let t = keep_pinned(s, rest, owner, pins);
        let r = keep_pinned(s, old, owner, pins);
        lemma_upsert(t, e);
        lemma_place_is(old, old.len() - 1);
        assert forall|o: BackendId, id: Seq<char>| #[trigger] known(r, o, id) == (if known(
            s,
            o,
            id,
        ) is None && o == owner && pinned_session(pins, id) {
            known(old, o, id)
        } else {
            known(s, o, id)
        }) by {
            lemma_place(rest, o, id);
            assert(known(t, o, id) == if known(s, o, id) is None && o == owner && pinned_session(
                pins,
                id,
            ) {
                known(rest, o, id)
            } else {
                known(s, o, id)
            });
            if keyed(e, o, id) {
                assert(place(old, o, id) == Some(old.len() - 1));
                assert(known(rest, o, id) is None);
            } else {
                assert(known(old, o, id) == known(rest, o, id));
                assert(r == t || known(upsert(t, e), o, id) == known(t, o, id));
            }
        }
    }
}

/// What is known after a backend has reported: its sessions as reported, the
/// last report of an id counting; of those it no longer reports only the
/// pinned ones, as they were; the sessions of other backends as they were.
pub proof fn lemma_replaced(
    s: Seq<EntryView>,
    owner: BackendId,
    snaps: Seq<SnapshotView>,
    pins: Map<usize, Seq<char>>,
    o: BackendId,
    id: Seq<char>,
)
    requires
        distinct(s),
    ensures
        distinct(replaced(s, owner, snaps, pins)),
        known(replaced(s, owner, snaps, pins), o, id) == (if o != owner {
            known(s, o, id)
        } else if last_reported(snaps, id) is Some {
            last_reported(snaps, id)
        } else if pinned_session(pins, id) {
            known(s, o, id)
        } else {
            None
        }),
{
    lemma_others(s, owner);
    let rest = others(s, owner);
    lemma_upsert_all(rest, owner, snaps);
    let fresh = upsert_all(rest, owner, snaps);
    lemma_keep_pinned(fresh, s, owner, pins);
    assert(known(rest, o, id) == if o == owner {
        None
    } else {
        known(s, o, id)
    });
    assert(known(fresh, o, id) == if o == owner && last_reported(snaps, id) is Some {
        last_reported(snaps, id)
    } else {
        known(rest, o, id)
    });
    assert(known(keep_pinned(fresh, s, owner, pins), o, id) == if known(fresh, o, id) is None && o
        == owner && pinned_session(pins, id) {
        known(s, o, id)
    } else {
        known(fresh, o, id)
    });
}

/// LEDs and board state always show the same keys: as many as the board has,
/// numbered from 0 without a gap. A key without a session is dark, solid and
/// off; exactly the key with the focus is marked as focused.
pub proof fn lemma_led_and_board_agree(b: BoardView, now: u64, i: int)
    requires
        0 <= i < b.slot_count,
    ensures
        b.led_at(now).slots.len() == b.slot_count,
        b.state_at(now).slots.len() == b.slot_count,
        b.led_at(now).slots[i].i == i,
        b.state_at(now).slots[i].i == i,
        b.state_at(now).slots[i].focused == Some(i == b.focus),
        b.state_at(now).slots[i].session_id is None ==> b.led_at(now).slots[i] == (LedSlotView {
            i,
            rgb: None,
            br: 0,
            fx: LedFx::Solid,
        }),
        b.led_at(now).slots[i].rgb is None <==> b.state_at(now).slots[i].status is Off,
{
    let slot = b.shown(now)[i];
    assert(b.led_at(now).slots[i] == led_of(slot, now));
    assert(b.state_at(now).slots[i] == binding_of(slot, b.focus));
    if slot.session is Some {
        let s = slot.session->0;
        theme::lemma_codex_theme_paints(s.snapshot.status);
        theme::lemma_only_off_is_dark(
            ThemeInput {
                status: s.snapshot.status,
                risk: s.snapshot.risk,
                waiting_since: s.snapshot.waiting_since,
                now,
            },
            theme::codex_palette(),
        );
    }
}

/// A board without sessions is dark, whenever it is looked at.
pub proof fn lemma_empty_board_is_dark(b: BoardView, now: u64, i: int)
    requires
        b.entries.len() == 0,
        0 <= i < b.slot_count,
    ensures
        b.state_at(now).slots[i].session_id is None,
        b.state_at(now).slots[i].status == DeckStatus::Off,
        b.led_at(now).slots[i].rgb is None,
        b.led_at(now).slots[i].br == 0,
{
    let s = b.scored(now);
    assert(s.len() == 0);
    ordering::lemma_ranked(
        slot_allocator::competing(s, b.pins, b.slot_count, 0),
        |x: ScoredView| slot_allocator::session_rank(x),
    );
    slot_allocator::lemma_free_before(b.pins, 0, i);
    assert(slot_allocator::slot_at(s, b.pins, b.slot_count, i).session is None);
}

/// In manual mode a key that is not pinned stays empty.
pub proof fn lemma_manual_mode_shows_only_pins(b: BoardView, now: u64, i: int)
    requires
        0 <= i < b.slot_count,
        !b.auto_fill,
        !slot_allocator::pinned_at(b.pins, i),
    ensures
        b.state_at(now).slots[i] == (SlotBindingView {
            i,
            backend: None,
            session_id: None,
            title: None,
            status: DeckStatus::Off,
            detail: None,
            focused: Some(i == b.focus),
            pinned: Some(false),
        }),
{
    assert(b.state_at(now).slots[i] == binding_of(b.shown(now)[i], b.focus));
}

/// A pinned key is marked as pinned and shows its session as long as any
/// backend's entry for it is known, in either mode; it shows no other session.
pub proof fn lemma_pin_binds_key(b: BoardView, now: u64, i: int)
    requires
        0 <= i < b.slot_count,
        slot_allocator::pinned_at(b.pins, i),
    ensures
        ({
            let slot = b.state_at(now).slots[i];
            let id = b.pins[i as usize];
            &&& slot.pinned == Some(true)
            &&& slot.session_id == (if first_with_id(b.entries, id) is Some {
                Some(id)
            } else {
                None
            })
        }),
{
    let id = b.pins[i as usize];
    let s = b.scored(now);
    slot_allocator::lemma_pinned_key_is_reserved(s, b.pins, b.slot_count, i);
    assert(b.state_at(now).slots[i] == binding_of(b.shown(now)[i], b.focus));
    let slot = slot_allocator::slot_at(s, b.pins, b.slot_count, i);
    assert(slot_allocator::allocation(s, b.pins, b.slot_count)[i] == slot);
    lemma_first_with_id(b.entries, id);
    if slot.session is None {
        assert forall|k: int| 0 <= k < b.entries.len() implies (
        #[trigger] b.entries[k]).snapshot.session_id != id by {
            assert(s[k].snapshot.session_id != id);
        }
    } else {
        let x = slot.session->0;
        let k = choose|k: int| 0 <= k < s.len() && s[k] == x;
        assert(b.entries[k].snapshot.session_id == id);
    }
}

proof fn lemma_first_with_id(s: Seq<EntryView>, id: Seq<char>)
    ensures
        first_with_id(s, id) is None <==> forall|k: int|
            0 <= k < s.len() ==> (#[trigger] s[k]).snapshot.session_id != id,
    decreases s.len(),
{
    if s.len() > 0 {
        let t = s.drop_last();
        lemma_first_with_id(t, id);
        if first_with_id(s, id) is None {
            assert forall|k: int| 0 <= k < s.len() implies (#[trigger] s[k]).snapshot.session_id
                != id by {
                if k < t.len() {
                    assert(t[k].snapshot.session_id != id);
                }
            }
        } else if first_with_id(t, id) is Some {
            let k = choose|k: int| 0 <= k < t.len() && (#[trigger] t[k]).snapshot.session_id == id;
            assert(s[k].snapshot.session_id == id);
        } else {
            assert(s[s.len() - 1].snapshot.session_id == id);
        }
    }
}

/// A session that is known under its backend is found by its id.
pub proof fn lemma_known_is_found(s: Seq<EntryView>, owner: BackendId, id: Seq<char>)
    requires
        known(s, owner, id) is Some,
    ensures
        first_with_id(s, id) is Some,
{
    lemma_place(s, owner, id);
    lemma_first_with_id(s, id);
    let i = place(s, owner, id)->0;
    assert(s[i].snapshot.session_id == id);
}

/// Unpinning a key that was free before it was pinned gives back the board as
/// it was before the pin.
pub proof fn lemma_unpin_undoes_pin(b: BoardView, i: usize, id: Seq<char>, now: u64)
    requires
        !b.pins.contains_key(i),
    ensures
        ({
            let pinned = (BoardView { pins: b.pins.insert(i, id), ..b }).refreshed(now);
            (BoardView { pins: pinned.pins.remove(i), ..pinned }).refreshed(now) == b.refreshed(now)
        }),
{
    assert(b.pins.insert(i, id).remove(i) =~= b.pins);
}

/// Bringing an up-to-date board up to date again at the same moment changes nothing.
pub proof fn lemma_refresh_is_idempotent(b: BoardView, now: u64)
    ensures
        b.refreshed(now).refreshed(now) == b.refreshed(now),
{
}

/// A pinned session stays on its key when its backend stops reporting it.
pub proof fn lemma_pin_survives_silence(
    b: BoardView,
    owner: BackendId,
    snaps: Seq<SnapshotView>,
    i: int,
    now: u64,
)
    requires
        distinct(b.entries),
        0 <= i < b.slot_count,
        slot_allocator::pinned_at(b.pins, i),
        first_with_id(b.entries, b.pins[i as usize]) is Some,
    ensures
        ({
            let after = BoardView {
                entries: replaced(b.entries, owner, snaps, b.pins),
                ..b
            };
            after.state_at(now).slots[i].session_id == Some(b.pins[i as usize])
        }),
{
    let id = b.pins[i as usize];
    let after = BoardView { entries: replaced(b.entries, owner, snaps, b.pins), ..b };
    lemma_first_with_id(b.entries, id);
    let k = choose|k: int|
        0 <= k < b.entries.len() && (#[trigger] b.entries[k]).snapshot.session_id == id;
    let o = b.entries[k].owner;
    lemma_place_is(b.entries, k);
    lemma_replaced(b.entries, owner, snaps, b.pins, o, id);
    assert(b.pins.contains_key(i as usize));
    assert(pinned_session(b.pins, id));
    lemma_place(after.entries, o, id);
    let at = place(after.entries, o, id)->0;
    assert(after.entries[at].snapshot.session_id == id);
    lemma_first_with_id(after.entries, id);
    lemma_pin_binds_key(after, now, i);
}

/// On a well-formed board no session has two entries, and the focus is on a key,
/// or on the first one of a board without keys.
pub proof fn lemma_wf(b: &SessionBoard)
    requires
        b.wf(),
    ensures
        distinct(b@.entries),
        b@.focus == 0 || b@.focus < b@.slot_count,
{
}

/// What is known of a session is the entry of its backend under its id; without
/// one nothing is known.
pub proof fn lemma_known_is_the_entry(s: Seq<EntryView>, o: BackendId, id: Seq<char>, i: int)
    requires
        distinct(s),
    ensures
        0 <= i < s.len() && s[i].owner == o && s[i].snapshot.session_id == id ==> known(s, o, id)
            == Some(s[i].snapshot),
        (forall|k: int|
            0 <= k < s.len() ==> !((#[trigger] s[k]).owner == o && s[k].snapshot.session_id == id))
            ==> known(s, o, id) is None,
{
    lemma_place(s, o, id);
    if 0 <= i < s.len() && s[i].owner == o && s[i].snapshot.session_id == id {
        lemma_place_is(s, i);
    }
    if known(s, o, id) is Some {
        let k = place(s, o, id)->0;
        assert(keyed(s[k], o, id));
    }
}

/// Putting an entry replaces the one of the same session in its place, or adds
/// it at the end; all other entries stay where they are.
pub proof fn lemma_upsert_keeps_places(s: Seq<EntryView>, e: EntryView, i: int)
    requires
        distinct(s),
        0 <= i < s.len(),
    ensures
        ({
            let same = s[i].owner == e.owner && s[i].snapshot.session_id == e.snapshot.session_id;
            let t = upsert(s, e);
            &&& same ==> t == s.update(i, e)
            &&& !same ==> t[i] == s[i]
            &&& (forall|k: int|
                0 <= k < s.len() ==> !((#[trigger] s[k]).owner == e.owner
                    && s[k].snapshot.session_id == e.snapshot.session_id)) ==> t == s.push(e)
        }),
{
    lemma_place(s, e.owner, e.snapshot.session_id);
    if s[i].owner == e.owner && s[i].snapshot.session_id == e.snapshot.session_id {
        lemma_place_is(s, i);
    }
    if place(s, e.owner, e.snapshot.session_id) is Some {
        let k = place(s, e.owner, e.snapshot.session_id)->0;
        assert(keyed(s[k], e.owner, e.snapshot.session_id));
    }
}

/// The last report of an id is the one that counts, for all of a backend's
/// sessions and for those it names itself.
pub proof fn lemma_last_report_counts(
    snaps: Seq<SnapshotView>,
    backend: BackendId,
    id: Seq<char>,
    i: int,
)
    requires
        -1 <= i < snaps.len(),
    ensures
        (i >= 0 ==> snaps[i].session_id == id) && (forall|k: int|
            i < k < snaps.len() ==> (#[trigger] snaps[k]).session_id != id) ==> last_reported(
            snaps,
            id,
        ) == (if i >= 0 {
            Some(snaps[i])
        } else {
            None
        }),
        (i >= 0 ==> snaps[i].session_id == id && snaps[i].backend == backend) && (forall|k: int|
            i < k < snaps.len() ==> (#[trigger] snaps[k]).session_id != id || snaps[k].backend
                != backend) ==> last_of_backend(snaps, backend, id) == (if i >= 0 {
            Some(snaps[i])
        } else {
            None
        }),
    decreases snaps.len(),
{
    if snaps.len() > 0 && i < snaps.len() - 1 {
        let t = snaps.drop_last();
        let n = snaps.len() - 1;
        lemma_last_report_counts(t, backend, id, i);
        if forall|k: int| i < k < snaps.len() ==> (#[trigger] snaps[k]).session_id != id {
            assert(snaps[n].session_id != id);
            assert forall|k: int| i < k < t.len() implies (#[trigger] t[k]).session_id != id by {
                assert(snaps[k].session_id != id);
            }
        }
        if forall|k: int|
            i < k < snaps.len() ==> (#[trigger] snaps[k]).session_id != id || snaps[k].backend
                != backend {
            assert(snaps[n].session_id != id || snaps[n].backend != backend);
            assert forall|k: int| i < k < t.len() implies (#[trigger] t[k]).session_id != id
                || t[k].backend != backend by {
                assert(snaps[k].session_id != id || snaps[k].backend != backend);
            }
        }
    }
}

/// A session is found under its id as the first entry with that id.
pub proof fn lemma_first_entry_is_found(s: Seq<EntryView>, id: Seq<char>, i: int)
    requires
        0 <= i <= s.len(),
        forall|k: int| 0 <= k < i ==> (#[trigger] s[k]).snapshot.session_id != id,
        i < s.len() ==> s[i].snapshot.session_id == id,
    ensures
        first_with_id(s, id) == (if i < s.len() {
            Some(s[i].snapshot)
        } else {
            None
        }),
    decreases s.len(),
{
    if s.len() > 0 {
        let t = s.drop_last();
        if i < t.len() {
            assert forall|k: int| 0 <= k < i implies (#[trigger] t[k]).snapshot.session_id
                != id by {
                assert(s[k].snapshot.session_id != id);
            }
            lemma_first_entry_is_found(t, id, i);
        } else {
            assert forall|k: int| 0 <= k < t.len() implies (#[trigger] t[k]).snapshot.session_id
                != id by {
                assert(s[k].snapshot.session_id != id);
            }
            lemma_first_entry_is_found(t, id, t.len() as int);
        }
    }
}

/// A session with what it asks for: if it waits since a known time, that time up
/// to two minutes, or one minute for a high risk and half a minute for a medium
/// one if that is more; otherwise nothing.
pub open spec fn wish(s: SnapshotView, now: u64) -> ScoredView {
    let waited = if s.waiting_since matches Some(t) && t <= now {
        now - s.waiting_since->0
    } else {
        0
    };
    let least = match s.risk {
        Some(protocol::Risk::High) => 60_000int,
        Some(protocol::Risk::Medium) => 30_000,
        _ => 0,
    };
    let most = if waited > 120_000 {
        120_000
    } else {
        waited
    };
    ScoredView {
        snapshot: s,
        urgency: if s.status is Waiting && s.waiting_since is Some {
            if most < least {
                least as u64
            } else {
                most as u64
            }
        } else {
            0
        },
    }
}

proof fn lemma_scored_is_wished(b: BoardView, now: u64)
    ensures
        b.scored(now).len() == b.entries.len(),
        forall|k: int|
            0 <= k < b.entries.len() ==> #[trigger] b.scored(now)[k] == wish(
                b.entries[k].snapshot,
                now,
            ),
{
    assert forall|k: int| 0 <= k < b.entries.len() implies #[trigger] b.scored(now)[k] == wish(
        b.entries[k].snapshot,
        now,
    ) by {
        let s = b.entries[k].snapshot;
        assert(b.scored(now)[k] == ScoredView { snapshot: s, urgency: score(s, now) });
    }
}

/// Key `i` shows the session of entry `k`: the board names it with its title,
/// status and detail, and the LED is lit for it.
pub open spec fn key_shows(b: BoardView, now: u64, i: int, k: int) -> bool {
    let s = b.entries[k].snapshot;
    let slot = b.state_at(now).slots[i];
    let led = b.led_at(now).slots[i];
    let lit = theme::painted(
        ThemeInput { status: s.status, risk: s.risk, waiting_since: s.waiting_since, now },
        theme::codex_palette(),
    );
    &&& 0 <= k < b.entries.len()
    &&& slot.i == i && led.i == i
    &&& slot.backend == Some(s.backend)
    &&& slot.session_id == Some(s.session_id)
    &&& slot.title == Some(s.title)
    &&& slot.status == s.status
    &&& slot.detail == s.detail
    &&& slot.focused == Some(i == b.focus)
    &&& led.rgb == lit.rgb && led.br == lit.br && led.fx == lit.fx
}

/// Key `i` shows nothing: it is dark and names no session.
pub open spec fn key_is_empty(b: BoardView, now: u64, i: int) -> bool {
    let slot = b.state_at(now).slots[i];
    let led = b.led_at(now).slots[i];
    &&& slot.i == i && led.i == i
    &&& slot.backend is None && slot.session_id is None && slot.title is None && slot.detail
        is None
    &&& slot.status is Off
    &&& slot.focused == Some(i == b.focus)
    &&& led.rgb is None && led.br == 0 && led.fx is Solid
}

/// The entry is the last one under its id.
pub open spec fn last_entry_of_its_id(s: Seq<EntryView>, k: int) -> bool {
    0 <= k < s.len() && forall|j: int|
        k < j < s.len() ==> (#[trigger] s[j]).snapshot.session_id != s[k].snapshot.session_id
}

proof fn lemma_key(b: BoardView, now: u64, i: int)
    requires
        0 <= i < b.slot_count <= usize::MAX,
    ensures
        ({
            let slot = slot_allocator::allocation(b.scored(now), b.pins, b.slot_count)[i];
            let seen = b.auto_fill || b.pins.contains_key(i as usize);
            &&& b.state_at(now).slots.len() == b.slot_count
            &&& b.led_at(now).slots.len() == b.slot_count
            &&& b.state_at(now).slots[i].pinned == Some(b.pins.contains_key(i as usize))
            &&& !seen || slot.session is None ==> key_is_empty(b, now, i)
            &&& forall|k: int|
                seen && 0 <= k < b.entries.len() && slot.session == Some(
                    #[trigger] b.scored(now)[k],
                ) ==> key_shows(b, now, i, k)
        }),
{
    let slot = slot_allocator::slot_at(b.scored(now), b.pins, b.slot_count, i);
    slot_allocator::lemma_pinned_key_shows_latest(b.scored(now), b.pins, b.slot_count, i, 0);
    lemma_scored_is_wished(b, now);
    assert(slot_allocator::allocation(b.scored(now), b.pins, b.slot_count)[i] == slot);
    assert(b.state_at(now).slots[i] == binding_of(b.shown(now)[i], b.focus));
    assert(b.led_at(now).slots[i] == led_of(b.shown(now)[i], now));
}

/// Every key shows a session that the board knows, in its latest state, or is
/// empty. A pinned key shows no session but the one it is pinned to, a free one
/// none that is pinned, and in manual mode none at all.
pub proof fn lemma_key_shows_known_session(b: BoardView, now: u64, i: int) -> (k: int)
    requires
        0 <= i < b.slot_count <= usize::MAX,
    ensures
        b.state_at(now).slots[i].pinned == Some(b.pins.contains_key(i as usize)),
        key_is_empty(b, now, i) || key_shows(b, now, i, k) && last_entry_of_its_id(b.entries, k),
        !key_is_empty(b, now, i) && b.pins.contains_key(i as usize)
            ==> b.entries[k].snapshot.session_id == b.pins[i as usize],
        !key_is_empty(b, now, i) && !b.pins.contains_key(i as usize) ==> b.auto_fill && forall|
            j: int,
        |
            0 <= j < b.slot_count && #[trigger] slot_allocator::pinned_at(b.pins, j)
                ==> b.pins[j as usize] != b.entries[k].snapshot.session_id,
{
    lemma_key(b, now, i);
    lemma_scored_is_wished(b, now);
    let s = b.scored(now);
    let slot = slot_allocator::allocation(s, b.pins, b.slot_count)[i];
    let seen = b.auto_fill || b.pins.contains_key(i as usize);
    if !seen || slot.session is None {
        0
    } else if b.pins.contains_key(i as usize) {
        let id = b.pins[i as usize];
        let k = lemma_last_listed(s, id);
        if k >= 0 {
            slot_allocator::lemma_pinned_key_shows_latest(s, b.pins, b.slot_count, i, k);
            assert(slot.session == Some(s[k]));
            assert forall|j: int| k < j < b.entries.len() implies (
            #[trigger] b.entries[j]).snapshot.session_id != b.entries[k].snapshot.session_id by {
                assert(s[j].snapshot.session_id != s[k].snapshot.session_id);
            }
        } else {
            slot_allocator::lemma_pinned_key_shows_latest(s, b.pins, b.slot_count, i, 0);
        }
        k
    } else {
        slot_allocator::lemma_free_key_shows_latest(s, b.pins, b.slot_count, i, i);
        let k = choose|k: int| #[trigger]
            slot_allocator::last_of_its_id(s, k) && s[k] == slot.session->0;
        assert forall|j: int| k < j < b.entries.len() implies (
        #[trigger] b.entries[j]).snapshot.session_id != b.entries[k].snapshot.session_id by {
            assert(s[j].snapshot.session_id != s[k].snapshot.session_id);
        }
        assert forall|j: int| 0 <= j < b.slot_count && #[trigger] slot_allocator::pinned_at(
            b.pins,
            j,
        ) implies b.pins[j as usize] != b.entries[k].snapshot.session_id by {
            slot_allocator::lemma_free_key_shows_latest(s, b.pins, b.slot_count, i, j);
        }
        k
    }
}

proof fn lemma_last_listed(s: Seq<ScoredView>, id: Seq<char>) -> (k: int)
    ensures
        -1 <= k < s.len(),
        k >= 0 ==> s[k].snapshot.session_id == id && slot_allocator::last_of_its_id(s, k),
        k < 0 ==> forall|j: int| 0 <= j < s.len() ==> (#[trigger] s[j]).snapshot.session_id != id,
    decreases s.len(),
{
    if s.len() == 0 {
        -1
    } else if s.last().snapshot.session_id == id {
        s.len() - 1
    } else {
        let t = s.drop_last();
        let k = lemma_last_listed(t, id);
        assert forall|j: int| k < j < s.len() implies (#[trigger] s[j]).snapshot.session_id
            != id by {
            if j < t.len() {
                assert(t[j] == s[j]);
                if k >= 0 {
                    assert(t[j].snapshot.session_id != t[k].snapshot.session_id);
                }
            }
        }
        k
    }
}

/// A key that is pinned to a known session shows it, in its latest state, in
/// either mode.
pub proof fn lemma_pinned_session_is_shown(b: BoardView, now: u64, i: int, k: int)
    requires
        0 <= i < b.slot_count <= usize::MAX,
        b.pins.contains_key(i as usize),
        last_entry_of_its_id(b.entries, k),
        b.entries[k].snapshot.session_id == b.pins[i as usize],
    ensures
        key_shows(b, now, i, k),
        b.state_at(now).slots[i].pinned == Some(true),
{
    lemma_key(b, now, i);
    lemma_scored_is_wished(b, now);
    let s = b.scored(now);
    assert(slot_allocator::last_of_its_id(s, k)) by {
        assert forall|j: int| k < j < s.len() implies (#[trigger] s[j]).snapshot.session_id
            != s[k].snapshot.session_id by {
            assert(b.entries[j].snapshot.session_id != b.entries[k].snapshot.session_id);
        }
    }
    slot_allocator::lemma_pinned_key_shows_latest(s, b.pins, b.slot_count, i, k);
}

/// The board fills its free keys from the left: a session on a free key needs it
/// no less than one on a free key further right, and none to its left is empty.
pub proof fn lemma_board_fills_by_need(b: BoardView, now: u64, i: int, j: int) -> (r: (int, int))
    requires
        0 <= i < j < b.slot_count <= usize::MAX,
        !b.pins.contains_key(i as usize),
        !b.pins.contains_key(j as usize),
        !key_is_empty(b, now, j),
    ensures
        key_shows(b, now, i, r.0),
        key_shows(b, now, j, r.1),
        slot_allocator::needs_no_less(
            wish(b.entries[r.0].snapshot, now),
            wish(b.entries[r.1].snapshot, now),
        ),
{
    lemma_key(b, now, i);
    lemma_key(b, now, j);
    lemma_scored_is_wished(b, now);
    let s = b.scored(now);
    slot_allocator::lemma_free_keys_by_need(s, b.pins, b.slot_count, i, j);
    slot_allocator::lemma_free_key_shows_latest(s, b.pins, b.slot_count, i, i);
    slot_allocator::lemma_free_key_shows_latest(s, b.pins, b.slot_count, j, j);
    let x = slot_allocator::allocation(s, b.pins, b.slot_count)[i].session->0;
    let y = slot_allocator::allocation(s, b.pins, b.slot_count)[j].session->0;
    let k = choose|k: int| #[trigger] slot_allocator::last_of_its_id(s, k) && s[k] == x;
    let l = choose|l: int| #[trigger] slot_allocator::last_of_its_id(s, l) && s[l] == y;
    (k, l)
}

/// With filling on, a known session that no key shows is left out only for
/// others: every free key shows a session that needs it no less.
pub proof fn lemma_board_leaves_out_by_need(b: BoardView, now: u64, k: int, i: int) -> (x: int)
    requires
        b.auto_fill,
        last_entry_of_its_id(b.entries, k),
        0 <= i < b.slot_count <= usize::MAX,
        !b.pins.contains_key(i as usize),
        forall|j: int| 0 <= j < b.slot_count ==> !#[trigger] key_shows(b, now, j, k),
    ensures
        key_shows(b, now, i, x),
        slot_allocator::needs_no_less(
            wish(b.entries[x].snapshot, now),
            wish(b.entries[k].snapshot, now),
        ),
{
    lemma_scored_is_wished(b, now);
    let s = b.scored(now);
    assert(slot_allocator::last_of_its_id(s, k)) by {
        assert forall|j: int| k < j < s.len() implies (#[trigger] s[j]).snapshot.session_id
            != s[k].snapshot.session_id by {
            assert(b.entries[j].snapshot.session_id != b.entries[k].snapshot.session_id);
        }
    }
    assert forall|j: int| 0 <= j < b.slot_count implies (#[trigger] slot_allocator::allocation(
        s,
        b.pins,
        b.slot_count,
    )[j]).session != Some(s[k]) by {
        lemma_key(b, now, j);
        if slot_allocator::allocation(s, b.pins, b.slot_count)[j].session == Some(s[k]) {
            assert(key_shows(b, now, j, k));
        }
    }
    slot_allocator::lemma_left_out_for_greater_need(s, b.pins, b.slot_count, k, i);
    lemma_key(b, now, i);
    slot_allocator::lemma_free_key_shows_latest(s, b.pins, b.slot_count, i, i);
    let y = slot_allocator::allocation(s, b.pins, b.slot_count)[i].session->0;
    let x = choose|x: int| #[trigger] slot_allocator::last_of_its_id(s, x) && s[x] == y;
    x
}

/// Both snapshots of a board say what they are, and the board tells its focus and
/// its mode as they are; bringing them up to date changes nothing else.
pub proof fn lemma_refresh_changes_only_the_frames(b: BoardView, now: u64)
    ensures
        b.led_at(now).msg_type == "leds"@,
        b.state_at(now).msg_type == "board"@,
        b.state_at(now).focus == b.focus,
        b.state_at(now).mode == b.mode,
        b.refreshed(now).led == Some(b.led_at(now)),
        b.refreshed(now).board == Some(b.state_at(now)),
        b.refreshed(now) == (BoardView {
            led: b.refreshed(now).led,
            board: b.refreshed(now).board,
            ..b
        }),
{
}

/// A list of sessions goes by status, in the row waiting, error, working, done,
/// idle, off, then by the last update, the latest first; it holds each session
/// of the board.
pub proof fn lemma_list_goes_by_status_and_time(all: Seq<SnapshotView>, i: int, j: int)
    ensures
        ({
            let l = ordering::ranked(all, |s: SnapshotView| list_rank(s));
            &&& l.len() == all.len()
            &&& forall|x: SnapshotView| l.contains(x) <==> all.contains(x)
            &&& 0 <= i < j < l.len() ==> slot_allocator::needs_no_less(
                ScoredView { snapshot: l[i], urgency: 0 },
                ScoredView { snapshot: l[j], urgency: 0 },
            )
        }),
{
    let key = |s: SnapshotView| list_rank(s);
    let l = ordering::ranked(all, key);
    ordering::lemma_ranked(all, key);
    if 0 <= i < j < l.len() {
        assert(!ordering::above(key(l[j]), key(l[i])));
    }
}

proof fn lemma_others_are_kept(s: Seq<EntryView>, owner: BackendId)
    ensures
        others(s, owner) == s.filter(|e: EntryView| e.owner != owner),
    decreases s.len(),
{
    reveal(Seq::filter);
    if s.len() > 0 {
        lemma_others_are_kept(s.drop_last(), owner);
    }
}

proof fn lemma_new_reports_follow(
    s: Seq<EntryView>,
    owner: BackendId,
    snaps: Seq<SnapshotView>,
)
    requires
        forall|i: int| 0 <= i < s.len() ==> (#[trigger] s[i]).owner != owner,
        forall|i: int, j: int|
            0 <= i < j < snaps.len() ==> (#[trigger] snaps[i]).session_id != (
            #[trigger] snaps[j]).session_id,
    ensures
        upsert_all(s, owner, snaps) == s + Seq::new(
            snaps.len(),
            |j: int| EntryView { owner, snapshot: snaps[j] },
        ),
    decreases snaps.len(),
{
    let new = Seq::new(snaps.len(), |j: int| EntryView { owner, snapshot: snaps[j] });
    if snaps.len() == 0 {
        assert(s + new =~= s);
    } else {
        let t = snaps.drop_last();
        let n = snaps.len() - 1;
        let id = snaps[n].session_id;
        assert forall|i: int, j: int| 0 <= i < j < t.len() implies (#[trigger] t[i]).session_id != (
        #[trigger] t[j]).session_id by {
            assert(snaps[i].session_id != snaps[j].session_id);
        }
        lemma_new_reports_follow(s, owner, t);
        let r = upsert_all(s, owner, t);
        lemma_place(r, owner, id);
        if place(r, owner, id) is Some {
            let i = place(r, owner, id)->0;
            if i < s.len() {
                assert(s[i].owner != owner);
            } else {
                assert(r[i].snapshot == t[i - s.len()]);
                assert(snaps[i - s.len()].session_id != snaps[n].session_id);
            }
        }
        assert(r.push(EntryView { owner, snapshot: snaps[n] }) =~= s + new);
    }
}

proof fn lemma_kept_pins_follow(
    s: Seq<EntryView>,
    old: Seq<EntryView>,
    owner: BackendId,
    pins: Map<usize, Seq<char>>,
)
    ensures
        keep_pinned(s, old, owner, pins).len() >= s.len(),
        keep_pinned(s, old, owner, pins).take(s.len() as int) == s,
    decreases old.len(),
{
    if old.len() > 0 {
        lemma_kept_pins_follow(s, old.drop_last(), owner, pins);
        let t = keep_pinned(s, old.drop_last(), owner, pins);
        assert(t.push(old.last()).take(s.len() as int) =~= t.take(s.len() as int));
    } else {
        assert(s.take(s.len() as int) =~= s);
    }
}

/// A poll leaves the entries of the other backends first and in their order; the
/// sessions that it reports follow in the order of the report, and the pinned ones
/// that it does not report come last.
pub proof fn lemma_replaced_in_order(
    s: Seq<EntryView>,
    owner: BackendId,
    snaps: Seq<SnapshotView>,
    pins: Map<usize, Seq<char>>,
)
    requires
        forall|i: int, j: int|
            0 <= i < j < snaps.len() ==> (#[trigger] snaps[i]).session_id != (
            #[trigger] snaps[j]).session_id,
    ensures
        ({
            let r = replaced(s, owner, snaps, pins);
            let first = s.filter(|e: EntryView| e.owner != owner);
            let n = first.len() as int;
            &&& r.len() >= n + snaps.len()
            &&& r.take(n) == first
            &&& forall|j: int|
                0 <= j < snaps.len() ==> r[n + j] == (EntryView {
                    owner,
                    snapshot: #[trigger] snaps[j],
                })
        }),
{
    let keep = |e: EntryView| e.owner != owner;
    let first = s.filter(keep);
    let n = first.len() as int;
    lemma_others_are_kept(s, owner);
    let places = crate::lists::lemma_filter_places(s, keep);
    assert forall|i: int| 0 <= i < first.len() implies (#[trigger] first[i]).owner != owner by {
        assert(keep(s[places[i]]));
    }
    lemma_new_reports_follow(first, owner, snaps);
    let u = upsert_all(first, owner, snaps);
    lemma_kept_pins_follow(u, s, owner, pins);
    let r = replaced(s, owner, snaps, pins);
    assert(r.take(n) =~= first) by {
        assert forall|i: int| 0 <= i < n implies r[i] == first[i] by {
            assert(r.take(u.len() as int)[i] == u[i]);
        }
    }
    assert forall|j: int| 0 <= j < snaps.len() implies r[n + j] == (EntryView {
        owner,
        snapshot: #[trigger] snaps[j],
    }) by {
        assert(r.take(u.len() as int)[n + j] == u[n + j]);
    }
}

} // verus!
