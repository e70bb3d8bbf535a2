//! The vocabulary shared by every part of the deck: backends, statuses,
//! session snapshots, LED frames, board states and key actions.
use crate::text;
use vstd::prelude::*;

verus! {

/// Number of keys on the default deck.
pub const SLOT_COUNT: usize = 8;

/// How long a Done key stays green after the user opens it from the deck.
/// Unopened Done sessions keep green until `DONE_TTL_UNOPENED_MS` instead.
pub const DONE_TTL_MS: u64 = 300_000;

/// Longest time an unopened Done session stays green before it turns Idle.
pub const DONE_TTL_UNOPENED_MS: u64 = 43_200_000;

/// Waiting time after which a waiting session is fully urgent. Urgency is
/// counted in these milliseconds: from 0 up to this number.
pub const URGENCY_FULL_WAIT_MS: u64 = 120_000;

/// Working time after which a working key has its long-run colour.
pub const WORKING_LONG_MS: u64 = 300_000;

/// The user's home directory: `HOME`, else `USERPROFILE`, else the current
/// directory. Windows sets only the second.
pub open spec fn home_of(home: Option<Seq<char>>, user_profile: Option<Seq<char>>) -> Seq<char> {
    match (home, user_profile) {
        (Some(h), _) => h,
        (None, Some(p)) => p,
        (None, None) => "."@,
    }
}

/// The user's home directory, given the values of `HOME` and `USERPROFILE`.
pub fn home_dir(home: Option<String>, user_profile: Option<String>) -> (r: String)
    ensures
        r@ == home_of(text::opt(home), text::opt(user_profile)),
{
    match home {
        Some(h) => h,
        None => match user_profile {
            Some(p) => p,
            None => ".".to_string(),
        },
    }
}

/// The path of `rel` below the directory `base`.
pub open spec fn joined(base: Seq<char>, rel: Seq<char>) -> Seq<char> {
    if base.len() == 0 || base.last() == '/' {
        base + rel
    } else {
        base + "/"@ + rel
    }
}

/// The path of `rel` below the directory `base`.
pub fn join_path(base: &str, rel: &str) -> (r: String)
    ensures
        r@ == joined(base@, rel@),
{
    let mut r = base.to_string();
    if !base.is_empty() && !text::ends_with(base, "/") {
        r.append("/");
    }
    r.append(rel);
    proof {
        reveal_strlit("/");
        if base@.len() > 0 {
            let n = base@.len() as int;
            assert(base@.subrange(n - 1, n) =~= seq![base@.last()]);
            assert("/"@ =~= seq!['/']);
            assert(text::ends(base@, "/"@) == (base@.last() == '/')) by {
                if base@.subrange(n - 1, n) == "/"@ {
                    assert(seq![base@.last()][0] == seq!['/'][0]);
                }
            }
        }
        assert(r@ =~= joined(base@, rel@));
    }
    r
}

/// Which agent host a session belongs to.
#[derive(Debug, Clone, Copy, PartialEq, Eq, Hash, Structural)]
pub enum BackendId {
    Zcode,
    Codex,
    Workbuddy,
}

impl BackendId {
    /// The backend's name in keys and messages.
    pub open spec fn label(self) -> Seq<char> {
        match self {
            BackendId::Zcode => "zcode"@,
            BackendId::Codex => "codex"@,
            BackendId::Workbuddy => "workbuddy"@,
        }
    }

    /// The backend's name in keys and messages.
    pub fn name(self) -> (r: &'static str)
        ensures
            r@ == self.label(),
    {
        match self {
            BackendId::Zcode => "zcode",
            BackendId::Codex => "codex",
            BackendId::Workbuddy => "workbuddy",
        }
    }
}

/// What a key shows of its session.
#[derive(Debug, Clone, Copy, PartialEq, Eq, Hash, Structural)]
pub enum DeckStatus {
    Off,
    Idle,
    Working,
    Waiting,
    Done,
    Error,
}

impl DeckStatus {
    /// How urgently a status wants a key: waiting > error > working > done > idle > off.
    pub open spec fn spec_priority(self) -> u8 {
        match self {
            DeckStatus::Waiting => 5,
            DeckStatus::Error => 4,
            DeckStatus::Working => 3,
            DeckStatus::Done => 2,
            DeckStatus::Idle => 1,
            DeckStatus::Off => 0,
        }
    }

    /// How urgently a status wants a key: waiting > error > working > done > idle > off.
    pub fn priority(self) -> (r: u8)
        ensures
            r == self.spec_priority(),
    {
        match self {
            DeckStatus::Waiting => 5,
            DeckStatus::Error => 4,
            DeckStatus::Working => 3,
            DeckStatus::Done => 2,
            DeckStatus::Idle => 1,
            DeckStatus::Off => 0,
        }
    }
}

/// No two statuses share a priority.
pub proof fn lemma_priority_tells_statuses_apart(a: DeckStatus, b: DeckStatus)
    ensures
        a.spec_priority() == b.spec_priority() <==> a == b,
{
}

/// How much harm approving a request may do.
#[derive(Debug, Clone, Copy, PartialEq, Eq, Hash, Structural)]
pub enum Risk {
    Low,
    Medium,
    High,
}

impl Risk {
    /// Urgency that a risk gives from the first moment: none, a quarter, a half
    /// of full urgency.
    pub open spec fn spec_boost(self) -> u64 {
        match self {
            Risk::Low => 0,
            Risk::Medium => (URGENCY_FULL_WAIT_MS / 4) as u64,
            Risk::High => (URGENCY_FULL_WAIT_MS / 2) as u64,
        }
    }

    /// Urgency that a risk gives from the first moment: none, a quarter, a half
    /// of full urgency, in units of which `URGENCY_FULL_WAIT_MS` are full urgency.
    pub fn boost(self) -> (r: u64)
        ensures
            r == self.spec_boost(),
    {
        match self {
            Risk::Low => 0,
            Risk::Medium => URGENCY_FULL_WAIT_MS / 4,
            Risk::High => URGENCY_FULL_WAIT_MS / 2,
        }
    }
}

/// How an LED is driven.
#[derive(Debug, Clone, Copy, PartialEq, Eq, Hash, Structural)]
pub enum LedFx {
    Solid,
    Breathe,
    BlinkSlow,
    BlinkFast,
}

/// The policy the deck asks its agents to follow.
#[derive(Debug, Clone, Copy, PartialEq, Eq, Hash, Structural)]
pub enum PolicyMode {
    Plan,
    Act,
    Review,
}

/// Bind-picker grouping for a session's workspace.
/// WorkBuddy uses all three; other backends set none.
#[derive(Debug, Clone, Copy, PartialEq, Eq, Hash, Structural)]
pub enum ProjectCategory {
    /// Real project folder the user chose.
    Project,
    /// Ad-hoc WorkBuddy task in a timestamp folder under `~/WorkBuddy`.
    Task,
    /// Scheduled or background automation run.
    Automation,
}

/// What the deck knows of one session at one moment.
#[derive(Debug, PartialEq)]
pub struct SessionSnapshot {
    pub backend: BackendId,
    pub session_id: String,
    pub title: String,
    pub status: DeckStatus,
    pub risk: Option<Risk>,
    pub detail: Option<String>,
    pub waiting_since: Option<u64>,
    pub updated_at: u64,
    pub workspace_path: Option<String>,
    /// Bind-picker section. None for backends that don't classify workspaces.
    pub project_category: Option<ProjectCategory>,
    /// Human label for the bind-picker row.
    pub project_label: Option<String>,
}

/// The content of a `SessionSnapshot`.
#[verifier::ext_equal]
pub struct SnapshotView {
    pub backend: BackendId,
    pub session_id: Seq<char>,
    pub title: Seq<char>,
    pub status: DeckStatus,
    pub risk: Option<Risk>,
    pub detail: Option<Seq<char>>,
    pub waiting_since: Option<u64>,
    pub updated_at: u64,
    pub workspace_path: Option<Seq<char>>,
    pub project_category: Option<ProjectCategory>,
    pub project_label: Option<Seq<char>>,
}

impl View for SessionSnapshot {
    type V = SnapshotView;

    open spec fn view(&self) -> SnapshotView {
        SnapshotView {
            backend: self.backend,
            session_id: self.session_id@,
            title: self.title@,
            status: self.status,
            risk: self.risk,
            detail: text::opt(self.detail),
            waiting_since: self.waiting_since,
            updated_at: self.updated_at,
            workspace_path: text::opt(self.workspace_path),
            project_category: self.project_category,
            project_label: text::opt(self.project_label),
        }
    }
}

impl Clone for SessionSnapshot {
    fn clone(&self) -> (r: SessionSnapshot)
        ensures
            r == *self,
    {
        SessionSnapshot {
            backend: self.backend,
            session_id: self.session_id.clone(),
            title: self.title.clone(),
            status: self.status,
            risk: self.risk,
            detail: text::clone_opt(&self.detail),
            waiting_since: self.waiting_since,
            updated_at: self.updated_at,
            workspace_path: text::clone_opt(&self.workspace_path),
            project_category: self.project_category,
            project_label: text::clone_opt(&self.project_label),
        }
    }
}

/// The contents of a list of snapshots.
pub open spec fn snapshots(s: Seq<SessionSnapshot>) -> Seq<SnapshotView> {
    s.map_values(|x: SessionSnapshot| x@)
}

/// A copy of a list of snapshots.
pub fn clone_snapshots(v: &Vec<SessionSnapshot>) -> (r: Vec<SessionSnapshot>)
    ensures
        r@ == v@,
{
    let mut r: Vec<SessionSnapshot> = Vec::new();
    let mut i: usize = 0;
    while i < v.len()
        invariant
            i <= v@.len(),
            r@ == v@.take(i as int),
        decreases v@.len() - i,
    {
        r.push(v[i].clone());
        i = i + 1;
        assert(v@.take(i as int) == v@.take(i - 1).push(v@[i - 1]));
    }
    assert(v@.take(i as int) == v@);
    r
}

/// One LED of a frame.
#[derive(Debug, Clone, Copy, PartialEq)]
pub struct LedSlot {
    pub i: usize,
    pub rgb: Option<[u8; 3]>,
    pub br: u8,
    pub fx: LedFx,
}

/// The content of a `LedSlot`.
#[verifier::ext_equal]
pub struct LedSlotView {
    pub i: int,
    pub rgb: Option<Seq<u8>>,
    pub br: u8,
    pub fx: LedFx,
}

/// The channels of an optional colour.
pub open spec fn channels(rgb: Option<[u8; 3]>) -> Option<Seq<u8>> {
    match rgb {
        Some(c) => Some(c@),
        None => None,
    }
}

impl View for LedSlot {
    type V = LedSlotView;

    open spec fn view(&self) -> LedSlotView {
        LedSlotView { i: self.i as int, rgb: channels(self.rgb), br: self.br, fx: self.fx }
    }
}

/// A complete snapshot of the LEDs.
#[derive(Debug, PartialEq)]
pub struct LedFrame {
    pub msg_type: String,
    pub slots: Vec<LedSlot>,
}

/// The content of a `LedFrame`.
#[verifier::ext_equal]
pub struct LedFrameView {
    pub msg_type: Seq<char>,
    pub slots: Seq<LedSlotView>,
}

impl View for LedFrame {
    type V = LedFrameView;

    open spec fn view(&self) -> LedFrameView {
        LedFrameView {
            msg_type: self.msg_type@,
            slots: self.slots@.map_values(|s: LedSlot| s@),
        }
    }
}

impl LedFrame {
    /// A frame of these LEDs, tagged `leds`.
    pub fn new(slots: Vec<LedSlot>) -> (r: LedFrame)
        ensures
            r.slots == slots,
            r@ == (LedFrameView { msg_type: "leds"@, slots: slots@.map_values(|s: LedSlot| s@) }),
    {
        LedFrame { msg_type: "leds".to_string(), slots }
    }
}

impl Clone for LedFrame {
    fn clone(&self) -> (r: LedFrame)
        ensures
            r@ == self@,
    {
        let mut slots: Vec<LedSlot> = Vec::new();
        let mut i: usize = 0;
        while i < self.slots.len()
            invariant
                i <= self.slots@.len(),
                slots@ == self.slots@.take(i as int),
            decreases self.slots@.len() - i,
        {
            slots.push(self.slots[i]);
            i = i + 1;
            assert(self.slots@.take(i as int) == self.slots@.take(i - 1).push(self.slots@[i - 1]));
        }
        assert(slots@ == self.slots@);
        LedFrame { msg_type: self.msg_type.clone(), slots }
    }
}

/// What one key is bound to.
#[derive(Debug, PartialEq)]
pub struct SlotBinding {
    pub i: usize,
    pub backend: Option<BackendId>,
    pub session_id: Option<String>,
    pub title: Option<String>,
    pub status: DeckStatus,
    pub detail: Option<String>,
    pub focused: Option<bool>,
    /// True when this slot is manually pinned to a session.
    pub pinned: Option<bool>,
}

/// The content of a `SlotBinding`.
#[verifier::ext_equal]
pub struct SlotBindingView {
    pub i: int,
    pub backend: Option<BackendId>,
    pub session_id: Option<Seq<char>>,
    pub title: Option<Seq<char>>,
    pub status: DeckStatus,
    pub detail: Option<Seq<char>>,
    pub focused: Option<bool>,
    pub pinned: Option<bool>,
}

impl View for SlotBinding {
    type V = SlotBindingView;

    open spec fn view(&self) -> SlotBindingView {
        SlotBindingView {
            i: self.i as int,
            backend: self.backend,
            session_id: text::opt(self.session_id),
            title: text::opt(self.title),
            status: self.status,
            detail: text::opt(self.detail),
            focused: self.focused,
            pinned: self.pinned,
        }
    }
}

impl Clone for SlotBinding {
    fn clone(&self) -> (r: SlotBinding)
        ensures
            r == *self,
    {
        SlotBinding {
            i: self.i,
            backend: self.backend,
            session_id: text::clone_opt(&self.session_id),
            title: text::clone_opt(&self.title),
            status: self.status,
            detail: text::clone_opt(&self.detail),
            focused: self.focused,
            pinned: self.pinned,
        }
    }
}

/// A complete snapshot of what the keys are bound to.
#[derive(Debug, PartialEq)]
pub struct BoardState {
    pub msg_type: String,
    pub slots: Vec<SlotBinding>,
    pub focus: usize,
    pub mode: PolicyMode,
}

/// The content of a `BoardState`.
#[verifier::ext_equal]
pub struct BoardStateView {
    pub msg_type: Seq<char>,
    pub slots: Seq<SlotBindingView>,
    pub focus: int,
    pub mode: PolicyMode,
}

impl View for BoardState {
    type V = BoardStateView;

    open spec fn view(&self) -> BoardStateView {
        BoardStateView {
            msg_type: self.msg_type@,
            slots: self.slots@.map_values(|s: SlotBinding| s@),
            focus: self.focus as int,
            mode: self.mode,
        }
    }
}

impl BoardState {
    /// A board of these slots, tagged `board`.
    pub fn new(slots: Vec<SlotBinding>, focus: usize, mode: PolicyMode) -> (r: BoardState)
        ensures
            r.slots == slots,
            r@ == (BoardStateView {
                msg_type: "board"@,
                slots: slots@.map_values(|s: SlotBinding| s@),
                focus: focus as int,
                mode,
            }),
    {
        BoardState { msg_type: "board".to_string(), slots, focus, mode }
    }
}

impl Clone for BoardState {
    fn clone(&self) -> (r: BoardState)
        ensures
            r@ == self@,
    {
        let mut slots: Vec<SlotBinding> = Vec::new();
        let mut i: usize = 0;
        while i < self.slots.len()
            invariant
                i <= self.slots@.len(),
                slots@ == self.slots@.take(i as int),
            decreases self.slots@.len() - i,
        {
            slots.push(self.slots[i].clone());
            i = i + 1;
            assert(self.slots@.take(i as int) == self.slots@.take(i - 1).push(self.slots@[i - 1]));
        }
        assert(slots@ == self.slots@);
        BoardState { msg_type: self.msg_type.clone(), slots, focus: self.focus, mode: self.mode }
    }
}

/// What a key press or the UI asks for.
#[allow(inconsistent_fields)]
#[derive(Debug, PartialEq)]
pub enum Action {
    Focus { i: usize },
    Accept { i: Option<usize> },
    Reject { i: Option<usize> },
    Stop { i: Option<usize> },
    StopAll,
    FreezeAll,
    Unfreeze,
    SetMode { mode: PolicyMode },
    Send { i: Option<usize>, text: String },
    /// Pin a session to slot `i`. `session_id = None` unpins the slot.
    Pin { i: usize, session_id: Option<String> },
}

impl Clone for Action {
    fn clone(&self) -> (r: Action)
        ensures
            r == *self,
    {
        match self {
            Action::Focus { i } => Action::Focus { i: *i },
            Action::Accept { i } => Action::Accept { i: *i },
            Action::Reject { i } => Action::Reject { i: *i },
            Action::Stop { i } => Action::Stop { i: *i },
            Action::StopAll => Action::StopAll,
            Action::FreezeAll => Action::FreezeAll,
            Action::Unfreeze => Action::Unfreeze,
            Action::SetMode { mode } => Action::SetMode { mode: *mode },
            Action::Send { i, text } => Action::Send { i: *i, text: text.clone() },
            Action::Pin { i, session_id } => Action::Pin {
                i: *i,
                session_id: text::clone_opt(session_id),
            },
        }
    }
}

impl Action {
    /// The action's name on the wire.
    pub open spec fn tag(self) -> Seq<char> {
        match self {
            Action::Focus { .. } => "focus"@,
            Action::Accept { .. } => "accept"@,
            Action::Reject { .. } => "reject"@,
            Action::Stop { .. } => "stop"@,
            Action::StopAll => "stop_all"@,
            Action::FreezeAll => "freeze_all"@,
            Action::Unfreeze => "unfreeze"@,
            Action::SetMode { .. } => "set_mode"@,
            Action::Send { .. } => "send"@,
            Action::Pin { .. } => "pin"@,
        }
    }

    /// The action's name on the wire.
    pub fn op_tag(&self) -> (r: &'static str)
        ensures
            r@ == self.tag(),
    {
        match self {
            Action::Focus { .. } => "focus",
            Action::Accept { .. } => "accept",
            Action::Reject { .. } => "reject",
            Action::Stop { .. } => "stop",
            Action::StopAll => "stop_all",
            Action::FreezeAll => "freeze_all",
            Action::Unfreeze => "unfreeze",
            Action::SetMode { .. } => "set_mode",
            Action::Send { .. } => "send",
            Action::Pin { .. } => "pin",
        }
    }
}

/// A status wants a key before those that come after it in the row waiting,
/// error, working, done, idle, off. The numbers leave no gap.
pub proof fn lemma_priority_follows_need(a: DeckStatus, b: DeckStatus)
    ensures
        0 <= a.spec_priority() <= 5,
        a is Waiting && !(b is Waiting) ==> a.spec_priority() > b.spec_priority(),
        a is Error && (b is Working || b is Done || b is Idle || b is Off) ==> a.spec_priority()
            > b.spec_priority(),
        a is Working && (b is Done || b is Idle || b is Off) ==> a.spec_priority()
            > b.spec_priority(),
        a is Done && (b is Idle || b is Off) ==> a.spec_priority() > b.spec_priority(),
        a is Idle && b is Off ==> a.spec_priority() > b.spec_priority(),
{
}

/// A higher risk gives more urgency from the first moment: high twice as much as
/// medium and half of what two minutes of waiting give, low none.
pub proof fn lemma_boost_follows_risk(r: Risk)
    ensures
        r is High ==> 2 * r.spec_boost() == 120_000,
        r is Medium ==> 2 * r.spec_boost() == Risk::High.spec_boost(),
        r is Low ==> r.spec_boost() == 0,
        URGENCY_FULL_WAIT_MS == 120_000,
{
}

/// The home directory is the first of the two that is told.
pub proof fn lemma_home_is_the_first_told(home: Seq<char>, profile: Option<Seq<char>>)
    ensures
        home_of(Some(home), profile) == home,
        profile is Some ==> home_of(None, profile) == profile->0,
        home_of(None, None) == "."@,
{
}

/// A path below a directory begins with the directory and ends with what is
/// below it; between the two there is exactly one slash more than the directory
/// ends with, if it ends with none and is not empty.
pub proof fn lemma_joined_path(base: Seq<char>, rel: Seq<char>)
    ensures
        ({
            let p = joined(base, rel);
            let slash = base.len() > 0 && base.last() != '/';
            &&& p.len() == base.len() + rel.len() + (if slash {
                1int
            } else {
                0
            })
            &&& p.take(base.len() as int) == base
            &&& p.skip(p.len() - rel.len()) == rel
            &&& slash ==> p[base.len() as int] == '/'
        }),
{
    reveal_strlit("/");
    let p = joined(base, rel);
    assert("/"@.len() == 1 && "/"@[0] == '/');
    assert(p.take(base.len() as int) =~= base);
    assert(p.skip(p.len() - rel.len()) =~= rel);
}

/// What an action is called on the wire.
pub proof fn lemma_action_names(a: Action)
    ensures
        a is Focus <==> a.tag() == "focus"@,
        a is Accept <==> a.tag() == "accept"@,
        a is Reject <==> a.tag() == "reject"@,
        a is Stop <==> a.tag() == "stop"@,
        a is StopAll <==> a.tag() == "stop_all"@,
        a is FreezeAll <==> a.tag() == "freeze_all"@,
        a is Unfreeze <==> a.tag() == "unfreeze"@,
        a is SetMode <==> a.tag() == "set_mode"@,
        a is Send <==> a.tag() == "send"@,
        a is Pin <==> a.tag() == "pin"@,
{
    reveal_strlit("focus");
    reveal_strlit("accept");
    reveal_strlit("reject");
    reveal_strlit("stop");
    reveal_strlit("stop_all");
    reveal_strlit("freeze_all");
    reveal_strlit("unfreeze");
    reveal_strlit("set_mode");
    reveal_strlit("send");
    reveal_strlit("pin");
    assert("focus"@[0] == 'f' && "focus"@.len() == 5);
    assert("accept"@[0] == 'a' && "reject"@[0] == 'r' && "unfreeze"@[0] == 'u');
    assert("pin"@[0] == 'p' && "freeze_all"@.len() == 10 && "stop"@.len() == 4);
    assert("stop_all"@[1] == 't' && "stop_all"@.len() == 8 && "set_mode"@.len() == 8);
    assert("set_mode"@[1] == 'e' && "send"@.len() == 4 && "send"@[1] == 'e' && "stop"@[1] == 't');
    assert("freeze_all"@[0] == 'f' && "send"@[0] == 's' && "stop"@[0] == 's');
    assert("stop_all"@[0] == 's' && "set_mode"@[0] == 's');
}

/// The name of a backend in keys and messages.
pub proof fn lemma_backend_names(b: BackendId)
    ensures
        b is Zcode <==> b.label() == "zcode"@,
        b is Codex <==> b.label() == "codex"@,
        b is Workbuddy <==> b.label() == "workbuddy"@,
{
    reveal_strlit("zcode");
    reveal_strlit("codex");
    reveal_strlit("workbuddy");
    assert("zcode"@[0] == 'z' && "codex"@[0] == 'c' && "workbuddy"@[0] == 'w');
}

} // verus!
