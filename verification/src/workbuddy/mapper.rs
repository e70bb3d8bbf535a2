//! From WorkBuddy's event log to a session snapshot.
//!
//! WorkBuddy appends one event per line to the log of a session. It publishes
//! no live status, so the status is inferred: hard and soft signs of activity,
//! each with a window after which it no longer counts, so that abandoned
//! rows do not keep a key lit.
use crate::json;
use crate::json::Json;
use crate::protocol::{BackendId, DeckStatus, Risk, SessionSnapshot, SnapshotView};
use crate::text;
use vstd::prelude::*;

verus! {

/// How long a running tool counts as work without a new event.
pub const ACTIVE_WINDOW_MS: u64 = 300_000;

/// How long streaming and thinking count as work without a new event. After a
/// stop the log freezes, so this is short.
pub const STREAMING_WINDOW_MS: u64 = 30_000;

/// How long a request for approval counts: the user may be away for a while.
pub const WAITING_WINDOW_MS: u64 = 1_800_000;

/// One event of a session's log.
#[derive(Debug, Clone)]
pub struct SessionEvent {
    pub timestamp: u64,
    pub event_type: String,
    /// Title generated by the model, on `ai-title` events.
    pub ai_title: Option<String>,
    /// Title given by the user, on `custom-title` events.
    pub custom_title: Option<String>,
    /// Title in older `custom-title` events.
    pub title: Option<String>,
    pub session_id: Option<String>,
    pub cwd: Option<String>,
    pub call_id: Option<String>,
    /// Tool name on `function_call` events.
    pub name: Option<String>,
    /// State of a tool call or of an assistant message.
    pub status: Option<String>,
    /// Tool arguments as JSON text; may ask for approval.
    pub arguments: Option<String>,
    /// `user` or `assistant` on `message` events.
    pub role: Option<String>,
}

/// The content of a `SessionEvent`.
#[verifier::ext_equal]
pub struct EventView {
    pub timestamp: u64,
    pub event_type: Seq<char>,
    pub ai_title: Option<Seq<char>>,
    pub custom_title: Option<Seq<char>>,
    pub title: Option<Seq<char>>,
    pub session_id: Option<Seq<char>>,
    pub cwd: Option<Seq<char>>,
    pub call_id: Option<Seq<char>>,
    pub name: Option<Seq<char>>,
    pub status: Option<Seq<char>>,
    pub arguments: Option<Seq<char>>,
    pub role: Option<Seq<char>>,
}

impl View for SessionEvent {
    type V = EventView;

    open spec fn view(&self) -> EventView {
        EventView {
            timestamp: self.timestamp,
            event_type: self.event_type@,
            ai_title: text::opt(self.ai_title),
            custom_title: text::opt(self.custom_title),
            title: text::opt(self.title),
            session_id: text::opt(self.session_id),
            cwd: text::opt(self.cwd),
            call_id: text::opt(self.call_id),
            name: text::opt(self.name),
            status: text::opt(self.status),
            arguments: text::opt(self.arguments),
            role: text::opt(self.role),
        }
    }
}

/// The contents of a log.
pub open spec fn event_views(s: Seq<SessionEvent>) -> Seq<EventView> {
    s.map_values(|x: SessionEvent| x@)
}

/// What the board needs to know of one session's log.
#[derive(Debug, Clone)]
pub struct SessionSignals {
    pub session_id: String,
    pub title: Option<String>,
    pub workspace_path: Option<String>,
    pub updated_at: u64,
    /// Newest open tool call that needs no approval.
    pub pending_tool_at: Option<u64>,
    /// Newest open tool call that waits for approval.
    pub pending_approval_at: Option<u64>,
    /// Newest message of the user.
    pub last_user_at: Option<u64>,
    /// Newest message of the assistant.
    pub last_assistant_at: Option<u64>,
    /// The newest message of the assistant is still being written.
    pub last_assistant_incomplete: bool,
    /// When the log file was last written.
    pub file_mtime_ms: Option<u64>,
    /// Name of the tool that waits for approval.
    pub detail: Option<String>,
}

/// The content of `SessionSignals`.
#[verifier::ext_equal]
pub struct SignalsView {
    pub session_id: Seq<char>,
    pub title: Option<Seq<char>>,
    pub workspace_path: Option<Seq<char>>,
    pub updated_at: u64,
    pub pending_tool_at: Option<u64>,
    pub pending_approval_at: Option<u64>,
    pub last_user_at: Option<u64>,
    pub last_assistant_at: Option<u64>,
    pub last_assistant_incomplete: bool,
    pub file_mtime_ms: Option<u64>,
    pub detail: Option<Seq<char>>,
}

impl View for SessionSignals {
    type V = SignalsView;

    open spec fn view(&self) -> SignalsView {
        SignalsView {
            session_id: self.session_id@,
            title: text::opt(self.title),
            workspace_path: text::opt(self.workspace_path),
            updated_at: self.updated_at,
            pending_tool_at: self.pending_tool_at,
            pending_approval_at: self.pending_approval_at,
            last_user_at: self.last_user_at,
            last_assistant_at: self.last_assistant_at,
            last_assistant_incomplete: self.last_assistant_incomplete,
            file_mtime_ms: self.file_mtime_ms,
            detail: text::opt(self.detail),
        }
    }
}

impl Default for SessionSignals {
    fn default() -> (r: SessionSignals)
        ensures
            r@ == (SignalsView {
                session_id: Seq::empty(),
                title: None,
                workspace_path: None,
                updated_at: 0,
                pending_tool_at: None,
                pending_approval_at: None,
                last_user_at: None,
                last_assistant_at: None,
                last_assistant_incomplete: false,
                file_mtime_ms: None,
                detail: None,
            }),
    {
        SessionSignals {
            session_id: String::new(),
            title: None,
            workspace_path: None,
            updated_at: 0,
            pending_tool_at: None,
            pending_approval_at: None,
            last_user_at: None,
            last_assistant_at: None,
            last_assistant_incomplete: false,
            file_mtime_ms: None,
            detail: None,
        }
    }
}

/// The later of a time so far and `t`.
pub open spec fn later(prev: Option<u64>, t: u64) -> Option<u64> {
    match prev {
        Some(p) => if p > t {
            Some(p)
        } else {
            Some(t)
        },
        None => Some(t),
    }
}

/// The newest time among the first `n` events that are selected.
pub open spec fn newest(s: Seq<EventView>, sel: spec_fn(int) -> bool, n: int) -> Option<u64>
    decreases n,
{
    if n <= 0 {
        None
    } else if sel(n - 1) {
        later(newest(s, sel, n - 1), s[n - 1].timestamp)
    } else {
        newest(s, sel, n - 1)
    }
}

/// The last text that `pick` finds in the first `n` events.
pub open spec fn last_text(
    s: Seq<EventView>,
    pick: spec_fn(EventView) -> Option<Seq<char>>,
    n: int,
) -> Option<Seq<char>>
    decreases n,
{
    if n <= 0 {
        None
    } else if pick(s[n - 1]) is Some {
        pick(s[n - 1])
    } else {
        last_text(s, pick, n - 1)
    }
}

/// The title that the user gave with an event.
pub open spec fn user_title(e: EventView) -> Option<Seq<char>> {
    if e.event_type == "custom-title"@ {
        text::filled(
            if e.custom_title is Some {
                e.custom_title
            } else {
                e.title
            },
        )
    } else {
        None
    }
}

/// The title that the model gave with an event.
pub open spec fn model_title(e: EventView) -> Option<Seq<char>> {
    if e.event_type == "ai-title"@ {
        text::filled(e.ai_title)
    } else {
        None
    }
}

/// The folder that an event names.
pub open spec fn folder(e: EventView) -> Option<Seq<char>> {
    text::filled(e.cwd)
}

/// The event is a message of this role.
pub open spec fn message_of(e: EventView, role: Seq<char>) -> bool {
    e.event_type == "message"@ && e.role == Some(role)
}

/// The newest message of the assistant among the first `n` events; of several
/// at one time the last.
pub open spec fn last_reply(s: Seq<EventView>, n: int) -> Option<EventView>
    decreases n,
{
    if n <= 0 {
        None
    } else {
        let prev = last_reply(s, n - 1);
        let e = s[n - 1];
        if message_of(e, "assistant"@) && (prev is None || e.timestamp >= prev->0.timestamp) {
            Some(e)
        } else {
            prev
        }
    }
}

/// Some event carries the result of call `id`.
pub open spec fn answered(s: Seq<EventView>, id: Seq<char>) -> bool {
    exists|j: int|
        0 <= j < s.len() && (#[trigger] s[j]).event_type == "function_call_result"@ && s[j].call_id
            == Some(id)
}

/// Event `i` is a tool call that is still open: it is not marked as completed
/// and has no result.
pub open spec fn open_call(s: Seq<EventView>, i: int) -> bool {
    &&& s[i].event_type == "function_call"@
    &&& s[i].status != Some("completed"@)
    &&& !(s[i].call_id matches Some(id) && answered(s, id))
}

/// Event `i` is an open call that waits for approval.
pub open spec fn asks(s: Seq<EventView>, approvals: Seq<bool>, i: int) -> bool {
    open_call(s, i) && approvals[i]
}

/// Event `i` is an open call that needs no approval.
pub open spec fn runs(s: Seq<EventView>, approvals: Seq<bool>, i: int) -> bool {
    open_call(s, i) && !approvals[i]
}

/// The tool shown for the calls that wait for approval among the first `n`
/// events: that of the newest one. A call without a name gives way to any later one.
pub open spec fn asking_tool(s: Seq<EventView>, approvals: Seq<bool>, n: int) -> Option<Seq<char>>
    decreases n,
{
    if n <= 0 {
        None
    } else {
        let prev = asking_tool(s, approvals, n - 1);
        if asks(s, approvals, n - 1) {
            let t = newest(s, |i: int| asks(s, approvals, i), n - 1);
            if prev is None || t is None || s[n - 1].timestamp >= t->0 {
                s[n - 1].name
            } else {
                prev
            }
        } else {
            prev
        }
    }
}

/// The signals of a log, given which calls ask for approval.
pub open spec fn signals_of(
    s: Seq<EventView>,
    approvals: Seq<bool>,
    session_id: Seq<char>,
    file_mtime_ms: Option<u64>,
) -> SignalsView {
    let n = s.len() as int;
    let custom = last_text(s, |e: EventView| user_title(e), n);
    let reply = last_reply(s, n);
    let updated = newest(s, |i: int| true, n);
    SignalsView {
        session_id,
        title: if custom is Some {
            custom
        } else {
            last_text(s, |e: EventView| model_title(e), n)
        },
        workspace_path: last_text(s, |e: EventView| folder(e), n),
        updated_at: match updated {
            Some(t) => t,
            None => 0,
        },
        pending_tool_at: newest(s, |i: int| runs(s, approvals, i), n),
        pending_approval_at: newest(s, |i: int| asks(s, approvals, i), n),
        last_user_at: newest(s, |i: int| message_of(s[i], "user"@), n),
        last_assistant_at: match reply {
            Some(e) => Some(e.timestamp),
            None => None,
        },
        last_assistant_incomplete: reply matches Some(e) && e.status == Some("incomplete"@),
        file_mtime_ms,
        detail: asking_tool(s, approvals, n),
    }
}

/// The later of a time so far and `ts`.
fn max_ts(prev: Option<u64>, ts: u64) -> (r: u64)
    ensures
        Some(r) == later(prev, ts),
{
    match prev {
        Some(p) => if p > ts {
            p
        } else {
            ts
        },
        None => ts,
    }
}

/// Whether an event of the log carries the result of call `id`. `results` are
/// the positions of the results.
fn has_result(events: &[SessionEvent], results: &Vec<usize>, id: &str) -> (r: bool)
    requires
        forall|a: int|
            0 <= a < results@.len() ==> (#[trigger] results@[a]) < events@.len()
                && events@[results@[a] as int].event_type@ == "function_call_result"@,
        forall|j: int|
            0 <= j < events@.len() && (#[trigger] events@[j]).event_type@
                == "function_call_result"@ ==> exists|a: int|
                0 <= a < results@.len() && #[trigger] results@[a] == j,
    ensures
        r == answered(event_views(events@), id@),
{
    let ghost s = event_views(events@);
    let mut a: usize = 0;
    while a < results.len()
        invariant
            a <= results@.len(),
            s == event_views(events@),
            forall|b: int|
                0 <= b < results@.len() ==> (#[trigger] results@[b]) < events@.len()
                    && events@[results@[b] as int].event_type@ == "function_call_result"@,
            forall|b: int| 0 <= b < a ==> s[(#[trigger] results@[b]) as int].call_id != Some(id@),
        decreases results@.len() - a,
    {
        let j: usize = results[a];
        assert(s[j as int] == events@[j as int]@);
        if text::opt_is(&events[j].call_id, id) {
            assert(answered(s, id@));
            return true;
        }
        a = a + 1;
    }
    proof {
        if answered(s, id@) {
            let j = choose|j: int|
                0 <= j < s.len() && (#[trigger] s[j]).event_type == "function_call_result"@
                    && s[j].call_id == Some(id@);
            assert(events@[j].event_type@ == "function_call_result"@);
            let b = choose|b: int| 0 <= b < results@.len() && #[trigger] results@[b] == j;
            assert(s[results@[b] as int].call_id != Some(id@));
        }
    }
    false
}

/// Folds a log into its signals, given which calls ask for approval.
pub fn aggregate_with(
    events: &[SessionEvent],
    approvals: &Vec<bool>,
    session_id: &str,
    file_mtime_ms: Option<u64>,
) -> (r: SessionSignals)
    requires
        approvals@.len() == events@.len(),
    ensures
        r@ == signals_of(event_views(events@), approvals@, session_id@, file_mtime_ms),
{
    let ghost s = event_views(events@);
    let ghost any = |i: int| true;
    let ghost by_user = |i: int| message_of(s[i], "user"@);
    let ghost custom = |e: EventView| user_title(e);
    let ghost generated = |e: EventView| model_title(e);
    let ghost place = |e: EventView| folder(e);
    let mut custom_title: Option<String> = None;
    let mut ai_title: Option<String> = None;
    let mut workspace_path: Option<String> = None;
    let mut updated_at: u64 = 0;
    let mut results: Vec<usize> = Vec::new();
    let mut last_user_at: Option<u64> = None;
    let mut last_assistant_at: Option<u64> = None;
    let mut last_assistant_incomplete: bool = false;
    let mut k: usize = 0;
    proof {
        reveal_strlit("custom-title");
        reveal_strlit("ai-title");
        reveal_strlit("message");
        reveal_strlit("function_call_result");
        reveal_strlit("user");
        reveal_strlit("assistant");
        assert("user"@.len() != "assistant"@.len());
        assert("custom-title"@.len() != "ai-title"@.len());
        assert("message"@.len() != "function_call_result"@.len());
    }
    while k < events.len()
        invariant
            k <= events@.len(),
            s == event_views(events@),
            any == (|i: int| true),
            by_user == (|i: int| message_of(s[i], "user"@)),
            custom == (|e: EventView| user_title(e)),
            generated == (|e: EventView| model_title(e)),
            place == (|e: EventView| folder(e)),
            "user"@ != "assistant"@,
            "custom-title"@ != "ai-title"@,
            "message"@ != "function_call_result"@,
            text::opt(custom_title) == last_text(s, custom, k as int),
            text::opt(ai_title) == last_text(s, generated, k as int),
            text::opt(workspace_path) == last_text(s, place, k as int),
            updated_at == (match newest(s, any, k as int) {
                Some(t) => t,
                None => 0,
            }),
            last_user_at == newest(s, by_user, k as int),
            last_assistant_at == (match last_reply(s, k as int) {
                Some(e) => Some(e.timestamp),
                None => None,
            }),
            last_assistant_incomplete == (last_reply(s, k as int) matches Some(e) && e.status
                == Some("incomplete"@)),
            forall|a: int|
                0 <= a < results@.len() ==> (#[trigger] results@[a]) < events@.len()
                    && events@[results@[a] as int].event_type@ == "function_call_result"@,
            forall|j: int|
                0 <= j < k && (#[trigger] events@[j]).event_type@ == "function_call_result"@
                    ==> exists|a: int| 0 <= a < results@.len() && #[trigger] results@[a] == j,
        decreases events@.len() - k,
    {
        let ev = &events[k];
        assert(s[k as int] == ev@);
        let kind = ev.event_type.as_str();
        if ev.timestamp > updated_at {
            updated_at = ev.timestamp;
        }
        if text::same(kind, "custom-title") {
            let t = if ev.custom_title.is_some() {
                text::clone_filled(&ev.custom_title)
            } else {
                text::clone_filled(&ev.title)
            };
            if t.is_some() {
                custom_title = t;
            }
        } else if text::same(kind, "ai-title") {
            let t = text::clone_filled(&ev.ai_title);
            if t.is_some() {
                ai_title = t;
            }
        }
        let cwd = text::clone_filled(&ev.cwd);
        if cwd.is_some() {
            workspace_path = cwd;
        }
        let ghost had = results@;
        if text::same(kind, "function_call_result") {
            results.push(k);
            assert(results@[had.len() as int] == k);
        } else if text::same(kind, "message") {
            if text::opt_is(&ev.role, "user") {
                last_user_at = Some(max_ts(last_user_at, ev.timestamp));
            } else if text::opt_is(&ev.role, "assistant") {
                let newer: bool = match last_assistant_at {
                    Some(t) => ev.timestamp >= t,
                    None => true,
                };
                if newer {
                    last_assistant_at = Some(ev.timestamp);
                    last_assistant_incomplete = text::opt_is(&ev.status, "incomplete");
                }
            }
        }
        assert forall|j: int|
            0 <= j < k + 1 && (#[trigger] events@[j]).event_type@
                == "function_call_result"@ implies exists|a: int|
            0 <= a < results@.len() && #[trigger] results@[a] == j by {
            if j < k {
                let a = choose|a: int| 0 <= a < had.len() && #[trigger] had[a] == j;
                assert(results@[a] == j);
            }
        }
        k = k + 1;
    }
    let ghost asking = |i: int| asks(s, approvals@, i);
    let ghost running = |i: int| runs(s, approvals@, i);
    let mut pending_tool_at: Option<u64> = None;
    let mut pending_approval_at: Option<u64> = None;
    let mut detail: Option<String> = None;
    let mut c: usize = 0;
    while c < events.len()
        invariant
            c <= events@.len(),
            approvals@.len() == events@.len(),
            s == event_views(events@),
            asking == (|i: int| asks(s, approvals@, i)),
            running == (|i: int| runs(s, approvals@, i)),
            pending_tool_at == newest(s, running, c as int),
            pending_approval_at == newest(s, asking, c as int),
            text::opt(detail) == asking_tool(s, approvals@, c as int),
            forall|a: int|
                0 <= a < results@.len() ==> (#[trigger] results@[a]) < events@.len()
                    && events@[results@[a] as int].event_type@ == "function_call_result"@,
            forall|j: int|
                0 <= j < events@.len() && (#[trigger] events@[j]).event_type@
                    == "function_call_result"@ ==> exists|a: int|
                    0 <= a < results@.len() && #[trigger] results@[a] == j,
        decreases events@.len() - c,
    {
        let ev = &events[c];
        assert(s[c as int] == ev@);
        if text::same(ev.event_type.as_str(), "function_call") {
            let resolved: bool = match &ev.call_id {
                Some(id) => has_result(events, &results, id.as_str()),
                None => false,
            };
            if !resolved && !text::opt_is(&ev.status, "completed") {
                assert(open_call(s, c as int));
                if approvals[c] {
                    let newer: bool = match pending_approval_at {
                        Some(t) => ev.timestamp >= t,
                        None => true,
                    };
                    if detail.is_none() || newer {
                        detail = text::clone_opt(&ev.name);
                    }
                    pending_approval_at = Some(max_ts(pending_approval_at, ev.timestamp));
                } else {
                    pending_tool_at = Some(max_ts(pending_tool_at, ev.timestamp));
                }
            } else {
                assert(!open_call(s, c as int));
            }
        }
        c = c + 1;
    }
    let title = if custom_title.is_some() {
        custom_title
    } else {
        ai_title
    };
    SessionSignals {
        session_id: session_id.to_string(),
        title,
        workspace_path,
        updated_at,
        pending_tool_at,
        pending_approval_at,
        last_user_at,
        last_assistant_at,
        last_assistant_incomplete,
        file_mtime_ms,
        detail,
    }
}

/// The arguments of a call, once read, ask for approval.
pub open spec fn approval_in(v: Option<json::JsonView>) -> bool {
    v matches Some(doc) && doc.field("requires_approval"@) matches Some(b) && b.as_truth() == Some(
        true,
    )
}

/// Whether the arguments of a call, once read, ask for approval: a true flag of
/// that name.
pub fn approval_flag(v: &Option<Json>) -> (r: bool)
    ensures
        r == approval_in(
            match *v {
                Some(doc) => Some(doc@),
                None => None,
            },
        ),
{
    match v {
        Some(doc) => match doc.get("requires_approval") {
            Some(b) => match b.as_bool() {
                Some(x) => x,
                None => false,
            },
            None => false,
        },
        None => false,
    }
}

/// The arguments of a call ask for approval.
pub open spec fn needs_approval(arguments: Option<Seq<char>>) -> bool {
    arguments matches Some(args) && approval_in(json::parsed(vstd::utf8::encode_utf8(args)))
}

/// Whether the arguments of a call ask for approval.
fn requires_approval(arguments: &Option<String>) -> (r: bool)
    ensures
        r == needs_approval(text::opt(*arguments)),
{
    match arguments {
        Some(args) => approval_flag(&json::parse(args.as_str().as_bytes())),
        None => false,
    }
}

/// Which events of a log ask for approval in their arguments.
pub open spec fn approvals_of(s: Seq<EventView>) -> Seq<bool> {
    s.map_values(|e: EventView| needs_approval(e.arguments))
}

/// Folds a log into its signals.
pub fn aggregate(
    events: &[SessionEvent],
    session_id: &str,
    file_mtime_ms: Option<u64>,
) -> (r: SessionSignals)
    ensures
        r@ == signals_of(
            event_views(events@),
            approvals_of(event_views(events@)),
            session_id@,
            file_mtime_ms,
        ),
{
    let mut approvals: Vec<bool> = Vec::new();
    let mut i: usize = 0;
    while i < events.len()
        invariant
            i <= events@.len(),
            approvals@.len() == i,
            forall|j: int|
                0 <= j < i ==> #[trigger] approvals@[j] == needs_approval(events@[j]@.arguments),
        decreases events@.len() - i,
    {
        approvals.push(requires_approval(&events[i].arguments));
        i = i + 1;
    }
    assert(approvals@ =~= approvals_of(event_views(events@)));
    aggregate_with(events, &approvals, session_id, file_mtime_ms)
}

/// `t` lies at most `window` before `now`, or after it.
pub open spec fn recent(now: u64, t: Option<u64>, window: u64) -> bool {
    t matches Some(x) && now <= x + window
}

/// Whether `ts` lies at most `window_ms` before `now`, or after it.
fn within(now: u64, ts: Option<u64>, window_ms: u64) -> (r: bool)
    ensures
        r == recent(now, ts, window_ms),
{
    match ts {
        Some(t) => now.saturating_sub(t) <= window_ms,
        None => false,
    }
}

impl SignalsView {
    /// The log is still being written: its file, or else its newest event, is fresh.
    pub open spec fn live(self, now: u64) -> bool {
        recent(
            now,
            if self.file_mtime_ms is Some {
                self.file_mtime_ms
            } else {
                Some(self.updated_at)
            },
            STREAMING_WINDOW_MS,
        )
    }

    /// A tool waits for approval.
    pub open spec fn waits(self, now: u64) -> bool {
        recent(now, self.pending_approval_at, WAITING_WINDOW_MS)
    }

    /// A tool is running.
    pub open spec fn runs_tool(self, now: u64) -> bool {
        recent(now, self.pending_tool_at, ACTIVE_WINDOW_MS)
    }

    /// The assistant is writing.
    pub open spec fn streams(self, now: u64) -> bool {
        self.last_assistant_incomplete && recent(now, self.last_assistant_at, STREAMING_WINDOW_MS)
            && self.live(now)
    }

    /// The user has just spoken and has no reply yet.
    pub open spec fn thinks(self, now: u64) -> bool {
        &&& recent(now, self.last_user_at, STREAMING_WINDOW_MS)
        &&& self.live(now)
        &&& self.last_assistant_at is None || self.last_user_at->0 >= self.last_assistant_at->0
    }

    /// A turn has ended: the assistant finished, or was stopped in the middle.
    pub open spec fn ended(self, now: u64) -> bool {
        self.last_assistant_at is Some && (!self.last_assistant_incomplete || !self.live(now))
    }

    /// The status: waiting for approval before work, work before the end of a
    /// turn, and idle when there is none of these.
    pub open spec fn status(self, now: u64) -> DeckStatus {
        if self.waits(now) {
            DeckStatus::Waiting
        } else if self.runs_tool(now) || self.streams(now) || self.thinks(now) {
            DeckStatus::Working
        } else if self.ended(now) {
            DeckStatus::Done
        } else {
            DeckStatus::Idle
        }
    }
}

/// Whether the log is still being written.
fn stream_is_live(signals: &SessionSignals, now: u64) -> (r: bool)
    ensures
        r == signals@.live(now),
{
    let t: Option<u64> = if signals.file_mtime_ms.is_some() {
        signals.file_mtime_ms
    } else {
        Some(signals.updated_at)
    };
    within(now, t, STREAMING_WINDOW_MS)
}

/// The status of a session.
pub fn infer_status(signals: &SessionSignals, now: u64) -> (r: DeckStatus)
    ensures
        r == signals@.status(now),
{
    if within(now, signals.pending_approval_at, WAITING_WINDOW_MS) {
        return DeckStatus::Waiting;
    }
    if within(now, signals.pending_tool_at, ACTIVE_WINDOW_MS) {
        return DeckStatus::Working;
    }
    let live: bool = stream_is_live(signals, now);
    if signals.last_assistant_incomplete && within(
        now,
        signals.last_assistant_at,
        STREAMING_WINDOW_MS,
    ) && live {
        return DeckStatus::Working;
    }
    if within(now, signals.last_user_at, STREAMING_WINDOW_MS) && live {
        let user_ts: u64 = signals.last_user_at.unwrap_or(0);
        let asst_ts: u64 = signals.last_assistant_at.unwrap_or(0);
        if user_ts >= asst_ts {
            return DeckStatus::Working;
        }
    }
    if signals.last_assistant_at.is_some() && (!signals.last_assistant_incomplete || !live) {
        return DeckStatus::Done;
    }
    DeckStatus::Idle
}

/// The risk of a tool by its lower-case name: changing tools are risky, reading
/// tools are not.
pub open spec fn tool_risk(d: Seq<char>) -> Risk {
    if text::occurs(d, "bash"@) || text::occurs(d, "edit"@) || text::occurs(d, "write"@)
        || text::occurs(d, "remove"@) || text::occurs(d, "delete"@) || text::occurs(
        d,
        "multiedit"@,
    ) {
        Risk::High
    } else if text::occurs(d, "read"@) || text::occurs(d, "glob"@) || text::occurs(d, "grep"@) {
        Risk::Low
    } else {
        Risk::Medium
    }
}

/// The risk of a tool by its lower-case name.
pub fn risk_of_lower(d: &str) -> (r: Risk)
    ensures
        r == tool_risk(d@),
{
    if text::contains(d, "bash") || text::contains(d, "edit") || text::contains(d, "write")
        || text::contains(d, "remove") || text::contains(d, "delete") || text::contains(
        d,
        "multiedit",
    ) {
        Risk::High
    } else if text::contains(d, "read") || text::contains(d, "glob") || text::contains(d, "grep") {
        Risk::Low
    } else {
        Risk::Medium
    }
}

/// The risk of a waiting tool; an unnamed one is of medium risk.
pub open spec fn risk_of(detail: Option<Seq<char>>) -> Risk {
    match text::filled(detail) {
        Some(d) => tool_risk(text::unicode_lower(d)),
        None => Risk::Medium,
    }
}

/// The content of an optional text slice.
pub open spec fn slice_view(detail: Option<&str>) -> Option<Seq<char>> {
    match detail {
        Some(d) => Some(d@),
        None => None,
    }
}

/// The risk of a waiting tool by its name, whatever its case.
pub fn infer_risk(detail: Option<&str>) -> (r: Risk)
    ensures
        r == risk_of(slice_view(detail)),
        detail matches Some(d) && d@.len() > 0 && text::all_ascii(d@) ==> r == tool_risk(
            text::lowered(detail->0@),
        ),
{
    match detail {
        None => Risk::Medium,
        Some(d) => {
            if d.is_empty() {
                return Risk::Medium;
            }
            risk_of_lower(text::to_lowercase(d).as_str())
        },
    }
}

/// The snapshot of a session, given the risk of the tool that waits.
pub open spec fn snapshot_with(s: SignalsView, now: u64, risk: Risk) -> SnapshotView {
    let status = s.status(now);
    SnapshotView {
        backend: BackendId::Workbuddy,
        session_id: s.session_id,
        title: match text::filled(s.title) {
            Some(t) => t,
            None => "(untitled)"@,
        },
        status,
        risk: if status is Waiting {
            Some(risk)
        } else {
            None
        },
        detail: text::filled(s.detail),
        waiting_since: if status is Waiting {
            Some(s.updated_at)
        } else {
            None
        },
        updated_at: if status is Done {
            s.last_assistant_at->0
        } else {
            s.updated_at
        },
        workspace_path: s.workspace_path,
        project_category: None,
        project_label: None,
    }
}

/// The snapshot of a session. A finished session counts from the end of its
/// turn, whatever came after it.
pub fn map_session(signals: &SessionSignals, now: u64) -> (r: SessionSnapshot)
    ensures
        r@ == snapshot_with(signals@, now, risk_of(text::opt(signals.detail))),
{
    let status = infer_status(signals, now);
    let risk = if status == DeckStatus::Waiting {
        match &signals.detail {
            Some(d) => Some(infer_risk(Some(d.as_str()))),
            None => Some(infer_risk(None)),
        }
    } else {
        None
    };
    let title = match text::clone_filled(&signals.title) {
        Some(t) => t,
        None => "(untitled)".to_string(),
    };
    let waiting_since: Option<u64> = if status == DeckStatus::Waiting {
        Some(signals.updated_at)
    } else {
        None
    };
    let updated_at: u64 = if status == DeckStatus::Done {
        signals.last_assistant_at.unwrap_or(signals.updated_at)
    } else {
        signals.updated_at
    };
    SessionSnapshot {
        backend: BackendId::Workbuddy,
        session_id: signals.session_id.clone(),
        title,
        status,
        risk,
        detail: text::clone_filled(&signals.detail),
        waiting_since,
        updated_at,
        workspace_path: text::clone_opt(&signals.workspace_path),
        project_category: None,
        project_label: None,
    }
}

/// A session has a start of waiting, and a risk, exactly while it waits; it waits
/// since its last update.
pub proof fn lemma_waiting_has_start_and_risk(s: SignalsView, now: u64, risk: Risk)
    ensures
        snapshot_with(s, now, risk).waiting_since is Some <==> s.status(now) is Waiting,
        snapshot_with(s, now, risk).waiting_since matches Some(t) ==> t == snapshot_with(
            s,
            now,
            risk,
        ).updated_at,
        snapshot_with(s, now, risk).risk is Some <==> s.status(now) is Waiting,
{
}

/// Abandoned rows do not keep a session busy: once every sign of activity is
/// older than its window, the session is done or idle.
pub proof fn lemma_abandoned_session_rests(s: SignalsView, now: u64)
    requires
        s.pending_approval_at matches Some(t) ==> now > t + WAITING_WINDOW_MS,
        s.pending_tool_at matches Some(t) ==> now > t + ACTIVE_WINDOW_MS,
        now > s.updated_at + STREAMING_WINDOW_MS,
        s.file_mtime_ms matches Some(t) ==> now > t + STREAMING_WINDOW_MS,
    ensures
        s.status(now) is Done <==> s.last_assistant_at is Some,
        s.status(now) is Idle <==> s.last_assistant_at is None,
{
}

/// A session that rests goes on resting as time passes, and in the same way,
/// unless its log changes.
pub proof fn lemma_rest_is_stable(s: SignalsView, earlier: u64, later: u64)
    requires
        earlier <= later,
        s.status(earlier) is Done,
    ensures
        s.status(later) is Done,
{
}

/// A user message that is newer than the last reply makes a live session work,
/// however long the last turn is over.
pub proof fn lemma_new_message_means_work(s: SignalsView, now: u64)
    requires
        !s.waits(now),
        recent(now, s.last_user_at, STREAMING_WINDOW_MS),
        s.live(now),
        s.last_assistant_at matches Some(t) ==> s.last_user_at->0 >= t,
    ensures
        s.status(now) is Working,
{
}

proof fn lemma_newest(s: Seq<EventView>, sel: spec_fn(int) -> bool, n: int)
    requires
        0 <= n <= s.len(),
    ensures
        newest(s, sel, n) is None <==> forall|i: int| 0 <= i < n ==> !#[trigger] sel(i),
        newest(s, sel, n) matches Some(t) ==> exists|i: int|
            0 <= i < n && #[trigger] sel(i) && s[i].timestamp == t,
        newest(s, sel, n) matches Some(t) ==> forall|i: int|
            0 <= i < n && #[trigger] sel(i) ==> s[i].timestamp <= t,
    decreases n,
{
    if n > 0 {
        lemma_newest(s, sel, n - 1);
        if newest(s, sel, n - 1) is Some {
            let t = newest(s, sel, n - 1)->0;
            let i = choose|i: int| 0 <= i < n - 1 && #[trigger] sel(i) && s[i].timestamp == t;
            if !sel(n - 1) || s[n - 1].timestamp < t {
                assert(sel(i) && s[i].timestamp == newest(s, sel, n)->0);
            }
        }
        if sel(n - 1) {
            assert(newest(s, sel, n) is Some);
        }
    }
}

/// The time of a signal is the newest one among the events it stands for: open
/// calls, messages of the user, and all events for the last update.
pub proof fn lemma_signal_times(
    s: Seq<EventView>,
    approvals: Seq<bool>,
    session_id: Seq<char>,
    file_mtime_ms: Option<u64>,
    i: int,
)
    requires
        0 <= i < s.len(),
    ensures
        ({
            let g = signals_of(s, approvals, session_id, file_mtime_ms);
            &&& s[i].timestamp <= g.updated_at
            &&& asks(s, approvals, i) ==> g.pending_approval_at is Some
                && s[i].timestamp <= g.pending_approval_at->0
            &&& runs(s, approvals, i) ==> g.pending_tool_at is Some
                && s[i].timestamp <= g.pending_tool_at->0
            &&& message_of(s[i], "user"@) ==> g.last_user_at is Some
                && s[i].timestamp <= g.last_user_at->0
            &&& message_of(s[i], "assistant"@) ==> g.last_assistant_at is Some
                && s[i].timestamp <= g.last_assistant_at->0
        }),
{
    let n = s.len() as int;
    let any = |i: int| true;
    let asking = |i: int| asks(s, approvals, i);
    let running = |i: int| runs(s, approvals, i);
    let by_user = |i: int| message_of(s[i], "user"@);
    lemma_newest(s, any, n);
    lemma_newest(s, asking, n);
    lemma_newest(s, running, n);
    lemma_newest(s, by_user, n);
    lemma_last_reply(s, n);
    assert(any(i));
    assert(asking(i) == asks(s, approvals, i));
    assert(running(i) == runs(s, approvals, i));
    assert(by_user(i) == message_of(s[i], "user"@));
}

proof fn lemma_last_reply(s: Seq<EventView>, n: int)
    requires
        0 <= n <= s.len(),
    ensures
        last_reply(s, n) matches Some(e) ==> message_of(e, "assistant"@),
        forall|i: int|
            0 <= i < n && message_of(#[trigger] s[i], "assistant"@) ==> last_reply(s, n) is Some
                && s[i].timestamp <= last_reply(s, n)->0.timestamp,
    decreases n,
{
    if n > 0 {
        lemma_last_reply(s, n - 1);
    }
}

/// A call that has its result, or is marked as completed, is no sign of work:
/// a log with only such calls has no open call.
pub proof fn lemma_closed_calls_do_not_count(
    s: Seq<EventView>,
    approvals: Seq<bool>,
    session_id: Seq<char>,
    file_mtime_ms: Option<u64>,
)
    requires
        forall|i: int|
            0 <= i < s.len() && (#[trigger] s[i]).event_type == "function_call"@ ==> s[i].status
                == Some("completed"@) || (s[i].call_id matches Some(id) && answered(s, id)),
    ensures
        signals_of(s, approvals, session_id, file_mtime_ms).pending_tool_at is None,
        signals_of(s, approvals, session_id, file_mtime_ms).pending_approval_at is None,
{
    let asking = |i: int| asks(s, approvals, i);
    let running = |i: int| runs(s, approvals, i);
    lemma_newest(s, asking, s.len() as int);
    lemma_newest(s, running, s.len() as int);
}

/// A title given by the user wins over any generated title, before or after it.
pub proof fn lemma_user_title_wins(
    s: Seq<EventView>,
    approvals: Seq<bool>,
    session_id: Seq<char>,
    file_mtime_ms: Option<u64>,
    i: int,
)
    requires
        0 <= i < s.len(),
        user_title(s[i]) is Some,
    ensures
        exists|j: int|
            i <= j < s.len() && #[trigger] user_title(s[j]) == signals_of(
                s,
                approvals,
                session_id,
                file_mtime_ms,
            ).title && user_title(s[j]) is Some,
{
    lemma_last_text(s, |e: EventView| user_title(e), s.len() as int, i);
}

proof fn lemma_last_text(
    s: Seq<EventView>,
    pick: spec_fn(EventView) -> Option<Seq<char>>,
    n: int,
    i: int,
)
    requires
        0 <= i < n <= s.len(),
        pick(s[i]) is Some,
    ensures
        exists|j: int|
            i <= j < n && #[trigger] pick(s[j]) == last_text(s, pick, n) && pick(s[j]) is Some,
    decreases n,
{
    if pick(s[n - 1]) is None {
        lemma_last_text(s, pick, n - 1, i);
    }
}

/// The event is of none of the kinds that a log is read for.
pub open spec fn unknown_kind(e: EventView) -> bool {
    &&& e.event_type != "message"@
    &&& e.event_type != "function_call"@
    &&& e.event_type != "function_call_result"@
    &&& e.event_type != "ai-title"@
    &&& e.event_type != "custom-title"@
}

proof fn lemma_newest_without(
    s: Seq<EventView>,
    sel: spec_fn(int) -> bool,
    p: int,
    e: EventView,
    wide: spec_fn(int) -> bool,
    n: int,
)
    requires
        0 <= p <= s.len(),
        0 <= n <= s.len(),
        !wide(p),
        forall|i: int| 0 <= i < p ==> #[trigger] wide(i) == sel(i),
        forall|i: int| p <= i < s.len() ==> #[trigger] sel(i) == wide(i + 1),
    ensures
        newest(s.insert(p, e), wide, if n <= p {
            n
        } else {
            n + 1
        }) == newest(s, sel, n),
        n == p ==> newest(s.insert(p, e), wide, n + 1) == newest(s, sel, n),
    decreases n,
{
    let t = s.insert(p, e);
    if n > 0 {
        lemma_newest_without(s, sel, p, e, wide, n - 1);
        if n <= p {
            assert(t[n - 1] == s[n - 1]);
            assert(wide(n - 1) == sel(n - 1));
        } else {
            assert(t[n] == s[n - 1]);
            assert(sel(n - 1) == wide(n));
        }
    }
}

proof fn lemma_newest_all_without(s: Seq<EventView>, p: int, e: EventView, n: int)
    requires
        0 <= p <= s.len(),
        0 <= n <= s.len(),
    ensures
        n <= p ==> newest(s.insert(p, e), |i: int| true, n) == newest(s, |i: int| true, n),
        n >= p ==> newest(s.insert(p, e), |i: int| true, n + 1) == later(
            newest(s, |i: int| true, n),
            e.timestamp,
        ),
    decreases n,
{
    let t = s.insert(p, e);
    if n > 0 {
        lemma_newest_all_without(s, p, e, n - 1);
        if n <= p {
            assert(t[n - 1] == s[n - 1]);
        } else {
            assert(t[n] == s[n - 1]);
        }
    }
    if n == p {
        assert(t[p] == e);
    }
}

proof fn lemma_last_text_without(
    s: Seq<EventView>,
    pick: spec_fn(EventView) -> Option<Seq<char>>,
    p: int,
    e: EventView,
    n: int,
)
    requires
        0 <= p <= s.len(),
        0 <= n <= s.len(),
        pick(e) is None,
    ensures
        n <= p ==> last_text(s.insert(p, e), pick, n) == last_text(s, pick, n),
        n >= p ==> last_text(s.insert(p, e), pick, n + 1) == last_text(s, pick, n),
    decreases n,
{
    let t = s.insert(p, e);
    if n > 0 {
        lemma_last_text_without(s, pick, p, e, n - 1);
        if n <= p {
            assert(t[n - 1] == s[n - 1]);
        } else {
            assert(t[n] == s[n - 1]);
        }
    }
    if n == p {
        assert(t[p] == e);
    }
}

proof fn lemma_last_reply_without(s: Seq<EventView>, p: int, e: EventView, n: int)
    requires
        0 <= p <= s.len(),
        0 <= n <= s.len(),
        e.event_type != "message"@,
    ensures
        n <= p ==> last_reply(s.insert(p, e), n) == last_reply(s, n),
        n >= p ==> last_reply(s.insert(p, e), n + 1) == last_reply(s, n),
    decreases n,
{
    let t = s.insert(p, e);
    if n > 0 {
        lemma_last_reply_without(s, p, e, n - 1);
        if n <= p {
            assert(t[n - 1] == s[n - 1]);
        } else {
            assert(t[n] == s[n - 1]);
        }
    }
    if n == p {
        assert(t[p] == e);
    }
}

proof fn lemma_answered_without(s: Seq<EventView>, p: int, e: EventView, id: Seq<char>)
    requires
        0 <= p <= s.len(),
        e.event_type != "function_call_result"@,
    ensures
        answered(s.insert(p, e), id) == answered(s, id),
{
    let t = s.insert(p, e);
    if answered(s, id) {
        let j = choose|j: int|
            0 <= j < s.len() && (#[trigger] s[j]).event_type == "function_call_result"@
                && s[j].call_id == Some(id);
        let k = if j < p {
            j
        } else {
            j + 1
        };
        assert(t[k] == s[j]);
    }
    if answered(t, id) {
        let k = choose|k: int|
            0 <= k < t.len() && (#[trigger] t[k]).event_type == "function_call_result"@
                && t[k].call_id == Some(id);
        let j = if k < p {
            k
        } else {
            k - 1
        };
        assert(t[k] == s[j]);
    }
}

proof fn lemma_open_call_without(s: Seq<EventView>, p: int, e: EventView)
    requires
        0 <= p <= s.len(),
        unknown_kind(e),
    ensures
        !open_call(s.insert(p, e), p),
        forall|i: int| 0 <= i < p ==> #[trigger] open_call(s.insert(p, e), i) == open_call(s, i),
        forall|i: int|
            p <= i < s.len() ==> #[trigger] open_call(s, i) == open_call(s.insert(p, e), i + 1),
{
    let t = s.insert(p, e);
    assert(t[p] == e);
    assert forall|i: int| 0 <= i < p implies #[trigger] open_call(t, i) == open_call(s, i) by {
        assert(t[i] == s[i]);
        if s[i].call_id is Some {
            lemma_answered_without(s, p, e, s[i].call_id->0);
        }
    }
    assert forall|i: int| p <= i < s.len() implies #[trigger] open_call(s, i) == open_call(
        t,
        i + 1,
    ) by {
        assert(t[i + 1] == s[i]);
        if s[i].call_id is Some {
            lemma_answered_without(s, p, e, s[i].call_id->0);
        }
    }
}

proof fn lemma_asking_tool_without(
    s: Seq<EventView>,
    approvals: Seq<bool>,
    p: int,
    e: EventView,
    a: bool,
    n: int,
)
    requires
        approvals.len() == s.len(),
        0 <= p <= s.len(),
        0 <= n <= s.len(),
        unknown_kind(e),
    ensures
        n <= p ==> asking_tool(s.insert(p, e), approvals.insert(p, a), n) == asking_tool(
            s,
            approvals,
            n,
        ),
        n >= p ==> asking_tool(s.insert(p, e), approvals.insert(p, a), n + 1) == asking_tool(
            s,
            approvals,
            n,
        ),
    decreases n,
{
    let t = s.insert(p, e);
    let b = approvals.insert(p, a);
    let before = |i: int| asks(s, approvals, i);
    let after = |i: int| asks(t, b, i);
    lemma_open_call_without(s, p, e);
    assert forall|i: int| 0 <= i < p implies #[trigger] after(i) == before(i) by {
        assert(open_call(t, i) == open_call(s, i));
        assert(b[i] == approvals[i]);
    }
    assert forall|i: int| p <= i < s.len() implies #[trigger] before(i) == after(i + 1) by {
        assert(open_call(s, i) == open_call(t, i + 1));
        assert(b[i + 1] == approvals[i]);
    }
    if n > 0 {
        lemma_asking_tool_without(s, approvals, p, e, a, n - 1);
        lemma_newest_without(s, before, p, e, after, n - 1);
        if n <= p {
            assert(t[n - 1] == s[n - 1]);
            assert(after(n - 1) == before(n - 1));
        } else {
            assert(t[n] == s[n - 1]);
            assert(before(n - 1) == after(n));
        }
    }
    if n == p {
        assert(!asks(t, b, p));
    }
}

/// An event of an unknown kind, wherever it stands in a log, changes nothing of
/// what is read from it, unless it names a folder or is newer than all others.
pub proof fn lemma_unknown_events_do_not_count(
    s: Seq<EventView>,
    p: int,
    e: EventView,
    session_id: Seq<char>,
    file_mtime_ms: Option<u64>,
)
    requires
        0 <= p <= s.len(),
        unknown_kind(e),
        folder(e) is None,
        e.timestamp <= signals_of(s, approvals_of(s), session_id, file_mtime_ms).updated_at,
    ensures
        signals_of(
            s.insert(p, e),
            approvals_of(s.insert(p, e)),
            session_id,
            file_mtime_ms,
        ) == signals_of(s, approvals_of(s), session_id, file_mtime_ms),
{
    let n = s.len() as int;
    let t = s.insert(p, e);
    let approvals = approvals_of(s);
    let a = needs_approval(e.arguments);
    let b = approvals.insert(p, a);
    assert(approvals_of(t) =~= b);
    lemma_open_call_without(s, p, e);
    let asking = |i: int| asks(s, approvals, i);
    let asking2 = |i: int| asks(t, b, i);
    let running = |i: int| runs(s, approvals, i);
    let running2 = |i: int| runs(t, b, i);
    let by_user = |i: int| message_of(s[i], "user"@);
    let by_user2 = |i: int| message_of(t[i], "user"@);
    assert(t[p] == e);
    assert forall|i: int| 0 <= i < p implies t[i] == s[i] && b[i] == approvals[i] && open_call(t, i)
        == open_call(s, i) by {}
    assert forall|i: int| p <= i < s.len() implies t[i + 1] == s[i] && b[i + 1] == approvals[i]
        && #[trigger] open_call(s, i) == open_call(t, i + 1) by {}
    assert forall|i: int| p <= i < s.len() implies #[trigger] asking(i) == asking2(i + 1) by {
        assert(open_call(s, i) == open_call(t, i + 1));
    }
    assert forall|i: int| p <= i < s.len() implies #[trigger] running(i) == running2(i + 1) by {
        assert(open_call(s, i) == open_call(t, i + 1));
    }
    assert forall|i: int| p <= i < s.len() implies #[trigger] by_user(i) == by_user2(i + 1) by {
        assert(open_call(s, i) == open_call(t, i + 1));
    }
    lemma_newest_without(s, asking, p, e, asking2, n);
    lemma_newest_without(s, running, p, e, running2, n);
    lemma_newest_without(s, by_user, p, e, by_user2, n);
    lemma_newest_all_without(s, p, e, n);
    lemma_newest(s, |i: int| true, n);
    lemma_last_text_without(s, |e: EventView| user_title(e), p, e, n);
    lemma_last_text_without(s, |e: EventView| model_title(e), p, e, n);
    lemma_last_text_without(s, |e: EventView| folder(e), p, e, n);
    lemma_last_reply_without(s, p, e, n);
    lemma_asking_tool_without(s, approvals, p, e, a, n);
}

/// A session waits exactly while a call that asks for approval is open and at
/// most half an hour old, whatever other signs of activity it shows.
pub proof fn lemma_request_for_approval_comes_first(s: SignalsView, now: u64)
    ensures
        s.status(now) is Waiting <==> (s.pending_approval_at matches Some(t) && now <= t
            + 1_800_000),
{
}

/// The last write of a log: that of its file, or of its newest event if the file
/// does not tell.
pub open spec fn last_written(s: SignalsView) -> u64 {
    match s.file_mtime_ms {
        Some(t) => t,
        None => s.updated_at,
    }
}

/// Without a request for approval, an open call means work for five minutes,
/// however old the log is and whatever was said before.
pub proof fn lemma_open_call_means_work(s: SignalsView, now: u64, t: u64)
    requires
        s.pending_tool_at == Some(t),
        now <= t + 300_000,
        s.pending_approval_at matches Some(a) ==> now > a + 1_800_000,
    ensures
        s.status(now) is Working,
{
}

/// Without a request for approval, an unfinished reply means work, as long as
/// both the reply and the log are at most half a minute old.
pub proof fn lemma_unfinished_reply_means_work(s: SignalsView, now: u64, t: u64)
    requires
        s.last_assistant_at == Some(t),
        s.last_assistant_incomplete,
        now <= t + 30_000,
        now <= last_written(s) + 30_000,
        s.pending_approval_at matches Some(a) ==> now > a + 1_800_000,
    ensures
        s.status(now) is Working,
{
}

/// Without a request for approval, a message that no later reply answers means
/// work, as long as both the message and the log are at most half a minute old.
pub proof fn lemma_unanswered_message_means_work(s: SignalsView, now: u64, t: u64)
    requires
        s.last_user_at == Some(t),
        s.last_assistant_at matches Some(r) ==> r <= t,
        now <= t + 30_000,
        now <= last_written(s) + 30_000,
        s.pending_approval_at matches Some(a) ==> now > a + 1_800_000,
    ensures
        s.status(now) is Working,
{
}

/// A session works only for a reason: an open call of the last five minutes, or,
/// in a log written to in the last half minute, a reply of that time that is
/// unfinished or a message of that time that no later reply answers.
pub proof fn lemma_work_has_a_reason(s: SignalsView, now: u64)
    requires
        s.status(now) is Working,
    ensures
        ({
            ||| s.pending_tool_at matches Some(t) && now <= t + 300_000
            ||| now <= last_written(s) + 30_000 && s.last_assistant_incomplete
                && (s.last_assistant_at matches Some(t) && now <= t + 30_000)
            ||| now <= last_written(s) + 30_000 && (s.last_user_at matches Some(t) && now <= t
                + 30_000 && (s.last_assistant_at matches Some(r) ==> r <= t))
        }),
{
}

/// A session that neither waits nor works is done once it has a reply that is
/// finished, or that stopped growing half a minute ago, and idle before that.
pub proof fn lemma_rest_is_done_after_a_reply(s: SignalsView, now: u64)
    requires
        !(s.status(now) is Waiting),
        !(s.status(now) is Working),
    ensures
        s.status(now) is Done <==> s.last_assistant_at is Some && (s.last_assistant_incomplete
            ==> now > last_written(s) + 30_000),
        s.status(now) is Done || s.status(now) is Idle,
{
}

/// The time of the file matters only for whether a log is being written to: with
/// an open call, a request or a finished reply and no message since, the status
/// does not depend on it.
pub proof fn lemma_file_time_only_tells_liveness(s: SignalsView, other: Option<u64>, now: u64)
    requires
        !s.last_assistant_incomplete,
        s.last_assistant_at is Some,
        s.last_user_at matches Some(t) ==> t < s.last_assistant_at->0,
    ensures
        s.status(now) == (SignalsView { file_mtime_ms: other, ..s }).status(now),
{
}

/// A snapshot carries the id, the folder and the tool of its session as they
/// are, and its title, or a stand-in if it has none; nothing of these depends on
/// the status.
pub proof fn lemma_snapshot_names_its_session(s: SignalsView, now: u64, risk: Risk)
    ensures
        ({
            let x = snapshot_with(s, now, risk);
            &&& x.backend is Workbuddy
            &&& x.session_id == s.session_id
            &&& x.workspace_path == s.workspace_path
            &&& x.status == s.status(now)
            &&& (s.title matches Some(t) && t.len() > 0) ==> x.title == s.title->0
            &&& !(s.title matches Some(t) && t.len() > 0) ==> x.title == "(untitled)"@
            &&& (s.detail matches Some(d) && d.len() > 0) ==> x.detail == s.detail
            &&& !(s.detail matches Some(d) && d.len() > 0) ==> x.detail is None
            &&& x.project_category is None
            &&& x.project_label is None
        }),
{
}

/// A finished session bears the time of its last reply, whatever came after it,
/// and any other the time of its newest event. A session that waits bears the
/// risk of its request.
pub proof fn lemma_snapshot_times(s: SignalsView, now: u64, risk: Risk)
    ensures
        ({
            let x = snapshot_with(s, now, risk);
            &&& x.status is Done ==> Some(x.updated_at) == s.last_assistant_at
            &&& !(x.status is Done) ==> x.updated_at == s.updated_at
            &&& x.risk matches Some(r) ==> r == risk
            &&& (s.pending_approval_at matches Some(t) && now <= t + 1_800_000)
                <==> x.waiting_since == Some(s.updated_at)
            &&& (s.pending_approval_at matches Some(t) && now <= t + 1_800_000)
                <==> x.risk == Some(risk)
        }),
{
}

/// The word stands in the text at position `i`.
pub open spec fn word_at(d: Seq<char>, word: Seq<char>, i: int) -> bool {
    0 <= i <= d.len() - word.len() && forall|k: int|
        0 <= k < word.len() ==> #[trigger] d[i + k] == word[k]
}

/// The word names a tool that changes something.
pub open spec fn changing(word: Seq<char>) -> bool {
    word == "bash"@ || word == "edit"@ || word == "write"@ || word == "remove"@ || word
        == "delete"@
}

/// The word names a tool that only looks.
pub open spec fn looking(word: Seq<char>) -> bool {
    word == "read"@ || word == "glob"@ || word == "grep"@
}

proof fn lemma_word_occurs(d: Seq<char>, word: Seq<char>, i: int)
    ensures
        word_at(d, word, i) <==> text::occurs_at(d, word, i),
{
    if 0 <= i <= d.len() - word.len() {
        let part = d.subrange(i, i + word.len());
        if word_at(d, word, i) {
            assert forall|k: int| 0 <= k < word.len() implies part[k] == word[k] by {
                assert(d[i + k] == word[k]);
            }
            assert(part =~= word);
        }
        if part == word {
            assert forall|k: int| 0 <= k < word.len() implies #[trigger] d[i + k] == word[k] by {
                assert(part[k] == word[k]);
            }
        }
    }
}

/// A tool whose lower-case name holds, anywhere, the word for one that changes
/// something is of high risk, whatever else the name holds.
pub proof fn lemma_changing_tools_are_risky(d: Seq<char>, word: Seq<char>, i: int)
    requires
        changing(word),
        word_at(d, word, i),
    ensures
        tool_risk(d) is High,
{
    lemma_word_occurs(d, word, i);
    assert(text::occurs(d, word));
}

/// A tool whose lower-case name holds the word for one that only looks is of low
/// risk, unless it also holds one for a tool that changes something.
pub proof fn lemma_looking_tools_are_harmless(d: Seq<char>, word: Seq<char>, i: int)
    requires
        looking(word),
        word_at(d, word, i),
        forall|w: Seq<char>, k: int| changing(w) ==> !#[trigger] word_at(d, w, k),
    ensures
        tool_risk(d) is Low,
{
    lemma_word_occurs(d, word, i);
    assert(text::occurs(d, word));
    lemma_no_risky_word(d);
}

proof fn lemma_no_risky_word(d: Seq<char>)
    requires
        forall|w: Seq<char>, k: int| changing(w) ==> !#[trigger] word_at(d, w, k),
    ensures
        !(tool_risk(d) is High),
{
    assert forall|w: Seq<char>, k: int| changing(w) implies !#[trigger] text::occurs_at(
        d,
        w,
        k,
    ) by {
        lemma_word_occurs(d, w, k);
        assert(!word_at(d, w, k));
    }
    assert(changing("bash"@) && changing("edit"@) && changing("write"@));
    assert(changing("remove"@) && changing("delete"@));
    if text::occurs(d, "multiedit"@) {
        reveal_strlit("multiedit");
        reveal_strlit("edit");
        let k = choose|k: int| text::occurs_at(d, "multiedit"@, k);
        lemma_word_occurs(d, "multiedit"@, k);
        assert(word_at(d, "edit"@, k + 5)) by {
            assert forall|j: int| 0 <= j < 4 implies #[trigger] d[k + 5 + j] == "edit"@[j] by {
                assert(d[k + (5 + j)] == "multiedit"@[5 + j]);
            }
        }
    }
}

/// A tool whose lower-case name holds none of these words, and one without a
/// name, is of medium risk.
pub proof fn lemma_other_tools_are_between(d: Seq<char>)
    requires
        forall|w: Seq<char>, k: int|
            changing(w) || looking(w) ==> !#[trigger] word_at(d, w, k),
    ensures
        tool_risk(d) is Medium,
        risk_of(None) is Medium,
        risk_of(Some(Seq::empty())) is Medium,
{
    lemma_no_risky_word(d);
    assert forall|w: Seq<char>, k: int| looking(w) implies !#[trigger] text::occurs_at(
        d,
        w,
        k,
    ) by {
        lemma_word_occurs(d, w, k);
        assert(!word_at(d, w, k));
    }
    assert(looking("read"@) && looking("glob"@) && looking("grep"@));
}

/// The risk of a named tool is that of its name in lower case.
pub proof fn lemma_risk_ignores_case(d: Seq<char>, e: Seq<char>)
    requires
        d.len() > 0,
        e.len() > 0,
        text::unicode_lower(d) == text::unicode_lower(e),
    ensures
        risk_of(Some(d)) == risk_of(Some(e)),
        risk_of(Some(d)) == tool_risk(text::unicode_lower(d)),
{
}

/// A call asks for approval exactly when its arguments are a JSON object whose
/// field `requires_approval` is true.
pub proof fn lemma_approval_is_a_true_flag(arguments: Seq<char>)
    ensures
        needs_approval(Some(arguments)) <==> (json::parsed(vstd::utf8::encode_utf8(arguments))
            matches Some(json::JsonView::Object(m)) && m.contains_key("requires_approval"@)
            && m["requires_approval"@] == json::JsonView::Bool(true)),
        !needs_approval(None),
{
}

/// Event `i` is a call that has neither ended nor been answered.
pub open spec fn pending(s: Seq<EventView>, i: int) -> bool {
    &&& 0 <= i < s.len()
    &&& s[i].event_type == "function_call"@
    &&& s[i].status != Some("completed"@)
    &&& forall|j: int|
        0 <= j < s.len() && (#[trigger] s[j]).event_type == "function_call_result"@ && s[j].call_id
            is Some ==> s[j].call_id != s[i].call_id
}

proof fn lemma_pending(s: Seq<EventView>, i: int)
    requires
        0 <= i < s.len(),
    ensures
        pending(s, i) <==> open_call(s, i),
{
    if open_call(s, i) && s[i].call_id is Some {
        assert(!answered(s, s[i].call_id->0));
    }
}

/// A pending call is the newest sign of its kind, or an older one than it:
/// those that ask for approval are told from those that do not by their
/// arguments.
pub proof fn lemma_pending_calls_count(
    s: Seq<EventView>,
    session_id: Seq<char>,
    file_mtime_ms: Option<u64>,
    i: int,
)
    requires
        pending(s, i),
    ensures
        ({
            let g = signals_of(s, approvals_of(s), session_id, file_mtime_ms);
            if needs_approval(s[i].arguments) {
                g.pending_approval_at matches Some(t) && s[i].timestamp <= t
            } else {
                g.pending_tool_at matches Some(t) && s[i].timestamp <= t
            }
        }),
{
    lemma_pending(s, i);
    lemma_signal_times(s, approvals_of(s), session_id, file_mtime_ms, i);
}

/// Each time that is read from a log is that of some event of its kind.
pub proof fn lemma_signals_come_from_events(
    s: Seq<EventView>,
    session_id: Seq<char>,
    file_mtime_ms: Option<u64>,
)
    ensures
        ({
            let g = signals_of(s, approvals_of(s), session_id, file_mtime_ms);
            &&& g.session_id == session_id
            &&& g.file_mtime_ms == file_mtime_ms
            &&& g.pending_approval_at matches Some(t) ==> exists|i: int|
                pending(s, i) && needs_approval((#[trigger] s[i]).arguments) && s[i].timestamp == t
            &&& g.pending_tool_at matches Some(t) ==> exists|i: int|
                pending(s, i) && !needs_approval((#[trigger] s[i]).arguments) && s[i].timestamp
                    == t
            &&& g.last_user_at matches Some(t) ==> exists|i: int|
                0 <= i < s.len() && (#[trigger] s[i]).event_type == "message"@ && s[i].role == Some(
                    "user"@,
                ) && s[i].timestamp == t
            &&& s.len() > 0 ==> exists|i: int|
                0 <= i < s.len() && (#[trigger] s[i]).timestamp == g.updated_at
            &&& s.len() == 0 ==> g.updated_at == 0
        }),
{
    let approvals = approvals_of(s);
    let n = s.len() as int;
    let asking = |i: int| asks(s, approvals, i);
    let running = |i: int| runs(s, approvals, i);
    let by_user = |i: int| message_of(s[i], "user"@);
    let any = |i: int| true;
    lemma_newest(s, asking, n);
    lemma_newest(s, running, n);
    lemma_newest(s, by_user, n);
    lemma_newest(s, any, n);
    let g = signals_of(s, approvals, session_id, file_mtime_ms);
    if g.pending_approval_at is Some {
        let i = choose|i: int|
            0 <= i < n && #[trigger] asking(i) && s[i].timestamp == g.pending_approval_at->0;
        lemma_pending(s, i);
        assert(needs_approval(s[i].arguments));
    }
    if g.pending_tool_at is Some {
        let i = choose|i: int|
            0 <= i < n && #[trigger] running(i) && s[i].timestamp == g.pending_tool_at->0;
        lemma_pending(s, i);
        assert(!needs_approval(s[i].arguments));
    }
    if g.last_user_at is Some {
        let i = choose|i: int|
            0 <= i < n && #[trigger] by_user(i) && s[i].timestamp == g.last_user_at->0;
        assert(s[i].role == Some("user"@));
    }
    if n > 0 {
        assert(any(0));
        let i = choose|i: int|
            0 <= i < n && #[trigger] any(i) && s[i].timestamp == newest(s, any, n)->0;
        assert(s[i].timestamp == g.updated_at);
    }
}

/// A message of the user, and any event for the last update, is the newest of
/// its kind or older than that.
pub proof fn lemma_messages_and_events_count(
    s: Seq<EventView>,
    session_id: Seq<char>,
    file_mtime_ms: Option<u64>,
    i: int,
)
    requires
        0 <= i < s.len(),
    ensures
        ({
            let g = signals_of(s, approvals_of(s), session_id, file_mtime_ms);
            &&& s[i].timestamp <= g.updated_at
            &&& s[i].event_type == "message"@ && s[i].role == Some("user"@) ==> (
            g.last_user_at matches Some(t) && s[i].timestamp <= t)
        }),
{
    lemma_signal_times(s, approvals_of(s), session_id, file_mtime_ms, i);
}

/// Event `i` is a message of the assistant.
pub open spec fn reply_at(s: Seq<EventView>, i: int) -> bool {
    0 <= i < s.len() && s[i].event_type == "message"@ && s[i].role == Some("assistant"@)
}

/// The reply that counts is the newest message of the assistant, of several at
/// one time the last one; it is unfinished exactly when that one says so.
pub proof fn lemma_newest_reply_counts(
    s: Seq<EventView>,
    session_id: Seq<char>,
    file_mtime_ms: Option<u64>,
    i: int,
)
    requires
        reply_at(s, i),
        forall|k: int| #[trigger]
            reply_at(s, k) ==> s[k].timestamp < s[i].timestamp || s[k].timestamp == s[i].timestamp
                && k <= i,
    ensures
        ({
            let g = signals_of(s, approvals_of(s), session_id, file_mtime_ms);
            &&& g.last_assistant_at == Some(s[i].timestamp)
            &&& g.last_assistant_incomplete <==> s[i].status == Some("incomplete"@)
        }),
{
    lemma_reply_so_far(s, i, s.len() as int);
}

proof fn lemma_reply_so_far(s: Seq<EventView>, i: int, n: int)
    requires
        reply_at(s, i),
        i < n <= s.len(),
        forall|k: int| #[trigger]
            reply_at(s, k) ==> s[k].timestamp < s[i].timestamp || s[k].timestamp == s[i].timestamp
                && k <= i,
    ensures
        last_reply(s, n) == Some(s[i]),
    decreases n,
{
    if n - 1 > i {
        lemma_reply_so_far(s, i, n - 1);
        assert(!reply_at(s, n - 1) || s[n - 1].timestamp < s[i].timestamp);
    } else {
        lemma_reply_before(s, i, n - 1);
    }
}

proof fn lemma_reply_before(s: Seq<EventView>, i: int, n: int)
    requires
        0 <= n <= i < s.len(),
        forall|k: int| #[trigger]
            reply_at(s, k) ==> s[k].timestamp < s[i].timestamp || s[k].timestamp == s[i].timestamp
                && k <= i,
    ensures
        last_reply(s, n) matches Some(e) ==> e.timestamp <= s[i].timestamp,
    decreases n,
{
    if n > 0 {
        lemma_reply_before(s, i, n - 1);
        assert(reply_at(s, n - 1) ==> s[n - 1].timestamp <= s[i].timestamp);
    }
}

/// Without a message of the assistant there is no reply.
pub proof fn lemma_no_reply_without_a_message(
    s: Seq<EventView>,
    session_id: Seq<char>,
    file_mtime_ms: Option<u64>,
)
    requires
        forall|k: int| !#[trigger] reply_at(s, k),
    ensures
        signals_of(s, approvals_of(s), session_id, file_mtime_ms).last_assistant_at is None,
        !signals_of(s, approvals_of(s), session_id, file_mtime_ms).last_assistant_incomplete,
{
    lemma_no_reply_so_far(s, s.len() as int);
}

proof fn lemma_no_reply_so_far(s: Seq<EventView>, n: int)
    requires
        forall|k: int| !#[trigger] reply_at(s, k),
        0 <= n <= s.len(),
    ensures
        last_reply(s, n) is None,
    decreases n,
{
    if n > 0 {
        lemma_no_reply_so_far(s, n - 1);
        assert(!reply_at(s, n - 1));
    }
}

proof fn lemma_last_text_is(
    s: Seq<EventView>,
    pick: spec_fn(EventView) -> Option<Seq<char>>,
    n: int,
    i: int,
)
    requires
        0 <= i < n <= s.len(),
        pick(s[i]) is Some,
        forall|j: int| i < j < n ==> pick(#[trigger] s[j]) is None,
    ensures
        last_text(s, pick, n) == pick(s[i]),
    decreases n,
{
    if n - 1 > i {
        assert(pick(s[n - 1]) is None);
        lemma_last_text_is(s, pick, n - 1, i);
    }
}

proof fn lemma_no_text(
    s: Seq<EventView>,
    pick: spec_fn(EventView) -> Option<Seq<char>>,
    n: int,
)
    requires
        0 <= n <= s.len(),
        forall|j: int| 0 <= j < n ==> pick(#[trigger] s[j]) is None,
    ensures
        last_text(s, pick, n) is None,
    decreases n,
{
    if n > 0 {
        assert(pick(s[n - 1]) is None);
        lemma_no_text(s, pick, n - 1);
    }
}

/// The event gives the session a title of the user's: its `custom_title`, or its
/// `title` if it has no such field.
pub open spec fn renames(e: EventView, title: Seq<char>) -> bool {
    &&& e.event_type == "custom-title"@
    &&& title.len() > 0
    &&& e.custom_title == Some(title) || e.custom_title is None && e.title == Some(title)
}

/// The title of a session is the last one that the user gave it, also where a
/// generated one came later.
pub proof fn lemma_last_rename_counts(
    s: Seq<EventView>,
    session_id: Seq<char>,
    file_mtime_ms: Option<u64>,
    i: int,
    title: Seq<char>,
)
    requires
        0 <= i < s.len(),
        renames(s[i], title),
        forall|j: int, t: Seq<char>| i < j < s.len() ==> !#[trigger] renames(s[j], t),
    ensures
        signals_of(s, approvals_of(s), session_id, file_mtime_ms).title == Some(title),
{
    let pick = |e: EventView| user_title(e);
    assert forall|j: int| i < j < s.len() implies pick(#[trigger] s[j]) is None by {
        if user_title(s[j]) is Some {
            assert(renames(s[j], user_title(s[j])->0));
        }
    }
    lemma_last_text_is(s, pick, s.len() as int, i);
}

/// Without a title of the user's, the title of a session is the last one that
/// was generated; without either it has none.
pub proof fn lemma_last_generated_title_counts(
    s: Seq<EventView>,
    session_id: Seq<char>,
    file_mtime_ms: Option<u64>,
    i: int,
)
    requires
        forall|j: int, t: Seq<char>| 0 <= j < s.len() ==> !#[trigger] renames(s[j], t),
        -1 <= i < s.len(),
        i >= 0 ==> s[i].event_type == "ai-title"@ && s[i].ai_title is Some
            && s[i].ai_title->0.len() > 0,
        forall|j: int|
            i < j < s.len() && (#[trigger] s[j]).event_type == "ai-title"@ && s[j].ai_title is Some
                ==> s[j].ai_title->0.len() == 0,
    ensures
        signals_of(s, approvals_of(s), session_id, file_mtime_ms).title == (if i >= 0 {
            s[i].ai_title
        } else {
            None
        }),
{
    let pick = |e: EventView| user_title(e);
    let made = |e: EventView| model_title(e);
    assert forall|j: int| 0 <= j < s.len() implies pick(#[trigger] s[j]) is None by {
        if user_title(s[j]) is Some {
            assert(renames(s[j], user_title(s[j])->0));
        }
    }
    lemma_no_text(s, pick, s.len() as int);
    assert forall|j: int| i < j < s.len() implies made(#[trigger] s[j]) is None by {}
    if i >= 0 {
        lemma_last_text_is(s, made, s.len() as int, i);
    } else {
        lemma_no_text(s, made, s.len() as int);
    }
}

/// The folder of a session is the last one that an event of any kind names.
pub proof fn lemma_last_folder_counts(
    s: Seq<EventView>,
    session_id: Seq<char>,
    file_mtime_ms: Option<u64>,
    i: int,
)
    requires
        -1 <= i < s.len(),
        i >= 0 ==> s[i].cwd is Some && s[i].cwd->0.len() > 0,
        forall|j: int|
            i < j < s.len() && (#[trigger] s[j]).cwd is Some ==> s[j].cwd->0.len() == 0,
    ensures
        signals_of(s, approvals_of(s), session_id, file_mtime_ms).workspace_path == (if i >= 0 {
            s[i].cwd
        } else {
            None
        }),
{
    let place = |e: EventView| folder(e);
    assert forall|j: int| i < j < s.len() implies place(#[trigger] s[j]) is None by {}
    if i >= 0 {
        lemma_last_text_is(s, place, s.len() as int, i);
    } else {
        lemma_no_text(s, place, s.len() as int);
    }
}

/// Event `i` is a pending call that asks for approval.
pub open spec fn asking_at(s: Seq<EventView>, i: int) -> bool {
    pending(s, i) && needs_approval(s[i].arguments)
}

/// The tool shown for a session is that of the newest call that asks for
/// approval, of several at one time the last one, as long as such calls name
/// their tool; without such a call no tool is shown.
pub proof fn lemma_newest_request_names_the_tool(
    s: Seq<EventView>,
    session_id: Seq<char>,
    file_mtime_ms: Option<u64>,
    i: int,
)
    requires
        forall|k: int| #[trigger] asking_at(s, k) ==> s[k].name is Some,
        i == -1 || asking_at(s, i),
        forall|k: int| #[trigger]
            asking_at(s, k) ==> i >= 0 && (s[k].timestamp < s[i].timestamp || s[k].timestamp
                == s[i].timestamp && k <= i),
    ensures
        signals_of(s, approvals_of(s), session_id, file_mtime_ms).detail == (if i >= 0 {
            s[i].name
        } else {
            None
        }),
{
    lemma_tool_so_far(s, i, s.len() as int);
}

proof fn lemma_tool_so_far(s: Seq<EventView>, i: int, n: int)
    requires
        forall|k: int| #[trigger] asking_at(s, k) ==> s[k].name is Some,
        i == -1 || asking_at(s, i),
        forall|k: int| #[trigger]
            asking_at(s, k) ==> i >= 0 && (s[k].timestamp < s[i].timestamp || s[k].timestamp
                == s[i].timestamp && k <= i),
        0 <= n <= s.len(),
    ensures
        i < n ==> asking_tool(s, approvals_of(s), n) == (if i >= 0 {
            s[i].name
        } else {
            None
        }),
        i >= 0 && i < n ==> newest(s, |i: int| asks(s, approvals_of(s), i), n) == Some(
            s[i].timestamp,
        ),
        i >= n ==> (newest(s, |i: int| asks(s, approvals_of(s), i), n) matches Some(t) ==> t
            <= s[i].timestamp),
        asking_tool(s, approvals_of(s), n) is None <==> newest(
            s,
            |i: int| asks(s, approvals_of(s), i),
            n,
        ) is None,
    decreases n,
{
    if n > 0 {
        lemma_tool_so_far(s, i, n - 1);
        lemma_pending(s, n - 1);
        assert(asking_at(s, n - 1) <==> asks(s, approvals_of(s), n - 1));
    }
}

} // verus!
