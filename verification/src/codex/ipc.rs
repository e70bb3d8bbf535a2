//! The live status of Codex threads, as the desktop application broadcasts it.
//!
//! Messages come as frames: four bytes of length, the lowest first, then as
//! many bytes of JSON.
use crate::codex::mapper::{StatusView, ThreadStatus};
use crate::host::now_ms;
use crate::json;
use crate::json::{Json, JsonView};
use crate::protocol;
use crate::text;
use crate::text_map::TextMap;
use vstd::prelude::*;

verus! {

/// Longest payload of a frame.
pub const MAX_FRAME: u32 = 268_435_456;

/// How long to wait before connecting again, in seconds.
pub const RECONNECT_BACKOFF_SECS: u64 = 5;

/// The length that the first four bytes of a frame give.
pub open spec fn frame_length(b: Seq<u8>) -> int {
    b[0] as int + 256 * (b[1] as int) + 65536 * (b[2] as int) + 16777216 * (b[3] as int)
}

/// The four bytes of a length.
#[verifier::opaque]
pub open spec fn length_bytes(n: nat) -> Seq<u8> {
    seq![
        (n % 256) as u8,
        ((n / 256) % 256) as u8,
        ((n / 65536) % 256) as u8,
        ((n / 16777216) % 256) as u8,
    ]
}

/// The frame of a payload.
pub open spec fn frame_of(payload: Seq<u8>) -> Seq<u8> {
    length_bytes(payload.len()) + payload
}

/// The payloads of the complete frames at the start of `b`, and how many bytes
/// they take; None when a frame has an impossible length.
pub open spec fn split(b: Seq<u8>) -> Option<(Seq<Seq<u8>>, int)>
    decreases b.len(),
{
    if b.len() < 4 {
        Some((Seq::empty(), 0))
    } else {
        let n = frame_length(b);
        if n <= 0 || n > MAX_FRAME {
            None
        } else if b.len() < 4 + n {
            Some((Seq::empty(), 0))
        } else {
            match split(b.skip(4 + n)) {
                Some((rest, used)) => Some((seq![b.subrange(4, 4 + n)] + rest, 4 + n + used)),
                None => None,
            }
        }
    }
}

/// The first impossible length of a frame in `b`.
pub open spec fn bad_length(b: Seq<u8>) -> Option<int>
    decreases b.len(),
{
    if b.len() < 4 {
        None
    } else {
        let n = frame_length(b);
        if n <= 0 || n > MAX_FRAME {
            Some(n)
        } else if b.len() < 4 + n {
            None
        } else {
            bad_length(b.skip(4 + n))
        }
    }
}

/// The documents among these payloads; those that are no JSON are left out.
pub open spec fn readable(payloads: Seq<Seq<u8>>) -> Seq<JsonView>
    decreases payloads.len(),
{
    if payloads.len() == 0 {
        Seq::empty()
    } else {
        let r = readable(payloads.drop_last());
        match json::parsed(payloads.last()) {
            Some(v) => r.push(v),
            None => r,
        }
    }
}

/// The documents received in `b`, and how many bytes they took.
pub open spec fn received(b: Seq<u8>) -> Option<(Seq<JsonView>, int)> {
    match split(b) {
        Some((payloads, used)) => Some((readable(payloads), used)),
        None => None,
    }
}

/// A frame with an impossible length: nothing, or more than `MAX_FRAME`.
#[derive(Debug, PartialEq)]
pub struct FrameError {
    pub length: u32,
}

proof fn lemma_length_bytes(n: nat)
    requires
        n <= MAX_FRAME,
    ensures
        length_bytes(n).len() == 4,
        frame_length(length_bytes(n)) == n,
{
    reveal(length_bytes);
    let b = length_bytes(n);
    assert(b[0] as nat == n % 256);
    assert(b[1] as nat == (n / 256) % 256);
    assert(b[2] as nat == (n / 65536) % 256);
    assert(b[3] as nat == (n / 16777216) % 256);
    assert(n / 65536 == (n / 256) / 256);
    assert(n / 16777216 == (n / 65536) / 256);
}

/// A frame followed by anything is split into its payload and what the rest gives.
pub proof fn lemma_frame_is_split_off(payload: Seq<u8>, rest: Seq<u8>)
    requires
        0 < payload.len() <= MAX_FRAME,
    ensures
        split(frame_of(payload) + rest) == (match split(rest) {
            Some((more, used)) => Some((seq![payload] + more, 4 + payload.len() + used)),
            None => None,
        }),
{
    let b = frame_of(payload) + rest;
    let n = payload.len();
    lemma_length_bytes(n);
    assert(frame_length(b) == frame_length(length_bytes(n)));
    assert(b.skip(4 + n as int) =~= rest);
    assert(b.subrange(4, 4 + n as int) =~= payload);
}

/// The frames of these payloads, one after the other.
pub open spec fn frames_of(payloads: Seq<Seq<u8>>) -> Seq<u8>
    decreases payloads.len(),
{
    if payloads.len() == 0 {
        Seq::empty()
    } else {
        frame_of(payloads.first()) + frames_of(payloads.skip(1))
    }
}

/// Frames sent one after the other are received one after the other, and
/// nothing is left of them.
pub proof fn lemma_frames_round_trip(payloads: Seq<Seq<u8>>)
    requires
        forall|i: int| 0 <= i < payloads.len() ==> 0 < (#[trigger] payloads[i]).len() <= MAX_FRAME,
    ensures
        split(frames_of(payloads)) == Some((payloads, frames_of(payloads).len() as int)),
    decreases payloads.len(),
{
    if payloads.len() > 0 {
        let rest = payloads.skip(1);
        assert forall|i: int| 0 <= i < rest.len() implies 0 < (#[trigger] rest[i]).len()
            <= MAX_FRAME by {
            assert(rest[i] == payloads[i + 1]);
        }
        lemma_frames_round_trip(rest);
        assert(0 < payloads[0].len() <= MAX_FRAME);
        let p = payloads.first();
        let tail = frames_of(rest);
        lemma_frame_is_split_off(p, tail);
        lemma_length_bytes(p.len());
        let all = (4 + p.len() + tail.len()) as int;
        assert(split(frame_of(p) + tail) == Some((seq![p] + rest, all)));
        assert(frame_of(p).len() == 4 + p.len());
        assert(frames_of(payloads) == frame_of(p) + tail);
        assert(seq![p] + rest =~= payloads);
    } else {
        assert(payloads =~= Seq::empty());
    }
}

/// An incomplete frame is left alone until the rest of it has come.
pub proof fn lemma_incomplete_frame_waits(payload: Seq<u8>, k: int)
    requires
        0 < payload.len() <= MAX_FRAME,
        0 <= k < frame_of(payload).len(),
    ensures
        split(frame_of(payload).take(k)) == Some((Seq::<Seq<u8>>::empty(), 0int)),
{
    let n = payload.len();
    lemma_length_bytes(n);
    let b = frame_of(payload).take(k);
    if k >= 4 {
        assert(frame_length(b) == frame_length(length_bytes(n)));
    }
}

/// How the bytes are cut into chunks does not matter: splitting what came first
/// and then the rest together with what comes later gives the same payloads as
/// splitting all of it at once.
pub proof fn lemma_chunks_do_not_matter(first: Seq<u8>, later: Seq<u8>)
    requires
        split(first) is Some,
    ensures
        ({
            let (payloads, used) = split(first)->0;
            &&& 0 <= used <= first.len()
            &&& split(first + later) == (match split(first.skip(used) + later) {
                Some((more, k)) => Some((payloads + more, used + k)),
                None => None,
            })
        }),
    decreases first.len(),
{
    let (payloads, used) = split(first)->0;
    let all = first + later;
    let n = if first.len() >= 4 {
        frame_length(first)
    } else {
        0
    };
    if first.len() < 4 || first.len() < 4 + n {
        assert(payloads =~= Seq::<Seq<u8>>::empty());
        assert(first.skip(0) =~= first);
        if split(all) is Some {
            let (more, k) = split(all)->0;
            assert(Seq::<Seq<u8>>::empty() + more =~= more);
        }
    } else {
        let rest = first.skip(4 + n);
        lemma_chunks_do_not_matter(rest, later);
        let (ps, u) = split(rest)->0;
        assert(frame_length(all) == n);
        assert(all.skip(4 + n) =~= rest + later);
        assert(all.subrange(4, 4 + n) =~= first.subrange(4, 4 + n));
        let p = first.subrange(4, 4 + n);
        assert(payloads == seq![p] + ps);
        assert(used == 4 + n + u);
        assert(first.skip(used) =~= rest.skip(u));
        match split(rest.skip(u) + later) {
            Some((more, k)) => {
                assert(seq![p] + (ps + more) =~= payloads + more);
            },
            None => {},
        }
    }
}

proof fn lemma_all_readable(payloads: Seq<Seq<u8>>, sent: Seq<JsonView>)
    requires
        sent.len() == payloads.len(),
        forall|i: int|
            0 <= i < payloads.len() ==> json::parsed(#[trigger] payloads[i]) == Some(sent[i]),
    ensures
        readable(payloads) == sent,
    decreases payloads.len(),
{
    if payloads.len() > 0 {
        lemma_all_readable(payloads.drop_last(), sent.drop_last());
        assert(json::parsed(payloads[payloads.len() - 1]) == Some(sent.last()));
        assert(sent.drop_last().push(sent.last()) =~= sent);
    } else {
        assert(sent =~= Seq::<JsonView>::empty());
    }
}

/// Documents sent one after the other arrive as they were sent, and the
/// beginning of a frame behind them, `payload` cut off after `k` bytes of its
/// frame, is left alone.
pub proof fn lemma_sent_documents_arrive(
    payloads: Seq<Seq<u8>>,
    sent: Seq<JsonView>,
    payload: Seq<u8>,
    k: int,
)
    requires
        sent.len() == payloads.len(),
        forall|i: int|
            0 <= i < payloads.len() ==> 0 < (#[trigger] payloads[i]).len() <= MAX_FRAME
                && json::parsed(payloads[i]) == Some(sent[i]),
        0 < payload.len() <= MAX_FRAME,
        0 <= k < frame_of(payload).len(),
    ensures
        ({
            let whole = frames_of(payloads);
            let begun = frame_of(payload).take(k);
            &&& received(whole + begun) == Some((sent, whole.len() as int))
            &&& (whole + begun).skip(whole.len() as int) == begun
        }),
{
    let whole = frames_of(payloads);
    let begun = frame_of(payload).take(k);
    lemma_frames_round_trip(payloads);
    lemma_chunks_do_not_matter(whole, begun);
    lemma_incomplete_frame_waits(payload, k);
    assert(whole.skip(whole.len() as int) + begun =~= begun);
    assert(payloads + Seq::<Seq<u8>>::empty() =~= payloads);
    lemma_all_readable(payloads, sent);
    assert((whole + begun).skip(whole.len() as int) =~= begun);
}

/// The payloads of the complete frames in `buf`, and how many bytes they take.
pub fn split_frames(buf: &Vec<u8>) -> (r: Result<(Vec<Vec<u8>>, usize), FrameError>)
    ensures
        match r {
            Ok((payloads, used)) => split(buf@) == Some(
                (payloads@.map_values(|p: Vec<u8>| p@), used as int),
            ) && used <= buf@.len(),
            Err(e) => split(buf@) is None && bad_length(buf@) == Some(e.length as int),
        },
{
    let mut out: Vec<Vec<u8>> = Vec::new();
    let mut used: usize = 0;
    assert(buf@.skip(0) == buf@);
    proof {
        assert(out@.map_values(|p: Vec<u8>| p@) =~= Seq::<Seq<u8>>::empty());
        if split(buf@) is Some {
            let (rest, k) = split(buf@)->0;
            assert(Seq::<Seq<u8>>::empty() + rest =~= rest);
        }
    }
    while buf.len() - used >= 4
        invariant
            used <= buf@.len(),
            split(buf@) == (match split(buf@.skip(used as int)) {
                Some((rest, k)) => Some(
                    (out@.map_values(|p: Vec<u8>| p@) + rest, used + k),
                ),
                None => None,
            }),
            bad_length(buf@) == bad_length(buf@.skip(used as int)),
        decreases buf@.len() - used,
    {
        let ghost rest = buf@.skip(used as int);
        let length: u32 = (buf[used] as u32) + 256 * (buf[used + 1] as u32) + 65536 * (
        buf[used + 2] as u32) + 16777216 * (buf[used + 3] as u32);
        assert(length == frame_length(rest));
        if length == 0 || length > MAX_FRAME {
            return Err(FrameError { length });
        }
        let n: usize = length as usize;
        if buf.len() - used - 4 < n {
            assert(split(rest) == Some((Seq::<Seq<u8>>::empty(), 0int)));
            assert(out@.map_values(|p: Vec<u8>| p@) + Seq::<Seq<u8>>::empty() =~= out@.map_values(
                |p: Vec<u8>| p@,
            ));
            return Ok((out, used));
        }
        let mut payload: Vec<u8> = Vec::new();
        let mut i: usize = 0;
        while i < n
            invariant
                i <= n,
                used + 4 + n <= buf.len(),
                payload@ == buf@.subrange(used + 4, used + 4 + i),
            decreases n - i,
        {
            payload.push(buf[used + 4 + i]);
            i = i + 1;
            assert(buf@.subrange(used + 4, used + 4 + i) == buf@.subrange(
                used + 4,
                used + 4 + i - 1,
            ).push(buf@[used + 4 + i - 1]));
        }
        proof {
            let p = rest.subrange(4, 4 + n as int);
            assert(p =~= payload@);
            assert(rest.skip(4 + n as int) =~= buf@.skip(used + 4 + n));
            let had = out@.map_values(|p: Vec<u8>| p@);
            assert(out@.push(payload).map_values(|p: Vec<u8>| p@) =~= had.push(payload@));
            if split(rest) is Some {
                let (more, k) = split(rest.skip(4 + n as int))->0;
                assert(had + (seq![payload@] + more) =~= had.push(payload@) + more);
            }
        }
        out.push(payload);
        used = used + 4 + n;
    }
    assert(out@.map_values(|p: Vec<u8>| p@) + Seq::<Seq<u8>>::empty() =~= out@.map_values(
        |p: Vec<u8>| p@,
    ));
    Ok((out, used))
}

/// The contents of a list of documents.
pub open spec fn docs(v: Seq<Json>) -> Seq<JsonView> {
    v.map_values(|x: Json| x@)
}

/// Takes the complete frames out of `buf` and gives their documents. Payloads
/// that are no JSON are skipped; an incomplete frame stays. After an error the
/// bytes are as they were, and the connection is of no more use.
pub fn decode_frames(buf: &mut Vec<u8>) -> (r: Result<Vec<Json>, FrameError>)
    ensures
        match r {
            Ok(frames) => received(old(buf)@) matches Some((d, used)) && docs(frames@) == d
                && final(buf)@ == old(buf)@.skip(used),
            Err(e) => received(old(buf)@) is None && final(buf)@ == old(buf)@ && bad_length(
                old(buf)@,
            ) == Some(e.length as int),
        },
{
    let ghost start = buf@;
    match split_frames(buf) {
        Err(e) => Err(e),
        Ok((payloads, used)) => {
            let ghost ps = payloads@.map_values(|p: Vec<u8>| p@);
            let mut frames: Vec<Json> = Vec::new();
            let mut i: usize = 0;
            assert(ps.take(0) == Seq::<Seq<u8>>::empty());
            assert(docs(frames@) =~= readable(ps.take(0)));
            while i < payloads.len()
                invariant
                    i <= payloads@.len(),
                    ps == payloads@.map_values(|p: Vec<u8>| p@),
                    docs(frames@) == readable(ps.take(i as int)),
                decreases payloads@.len() - i,
            {
                assert(ps.take(i + 1).drop_last() == ps.take(i as int));
                assert(ps.take(i + 1).last() == payloads@[i as int]@);
                if let Some(v) = json::parse(payloads[i].as_slice()) {
                    let ghost had = frames@;
                    frames.push(v);
                    assert(docs(frames@) =~= docs(had).push(v@));
                }
                i = i + 1;
            }
            assert(ps.take(i as int) == ps);
            let rest = buf.split_off(used);
            *buf = rest;
            assert(buf@ =~= start.skip(used as int));
            Ok(frames)
        },
    }
}

/// The payload of a document; `null` for one that cannot be written.
pub open spec fn payload_of(v: Json) -> Seq<u8> {
    match json::serialized(v) {
        Some(b) => b,
        None => seq![110u8, 117u8, 108u8, 108u8],
    }
}

/// The frame of a document. One with whole numbers only whose bytes fit a frame
/// is received as it was sent.
pub fn encode(obj: &Json) -> (r: Vec<u8>)
    requires
        json::nested_within(*obj, json::MAX_DEPTH as nat),
    ensures
        r@ == frame_of(payload_of(*obj)),
        payload_of(*obj).len() > 0,
        json::all_whole(*obj) ==> json::parsed(payload_of(*obj)) == Some(obj@),
        json::all_whole(*obj) && r@.len() <= 4 + MAX_FRAME ==> received(r@) == Some(
            (seq![obj@], r@.len() as int),
        ),
{
    let payload: Vec<u8> = match json::serialize(obj) {
        Some(b) => b,
        None => vec![110u8, 117u8, 108u8, 108u8],
    };
    let n: usize = payload.len();
    let mut out: Vec<u8> = vec![
        (n % 256) as u8,
        ((n / 256) % 256) as u8,
        ((n / 65536) % 256) as u8,
        ((n / 16777216) % 256) as u8,
    ];
    assert(out@ =~= length_bytes(n as nat)) by {
        reveal(length_bytes);
    }
    out.extend_from_slice(payload.as_slice());
    assert(out@ =~= frame_of(payload@));
    proof {
        if json::all_whole(*obj) && out@.len() <= 4 + MAX_FRAME {
            lemma_frame_is_split_off(payload@, Seq::empty());
            assert(frame_of(payload@) + Seq::<u8>::empty() =~= frame_of(payload@));
            assert(seq![payload@] + Seq::<Seq<u8>>::empty() =~= seq![payload@]);
            assert(split(out@) == Some((seq![payload@], out@.len() as int)));
            assert(seq![payload@].drop_last() =~= Seq::<Seq<u8>>::empty());
            assert(readable(seq![payload@].drop_last()) =~= Seq::<JsonView>::empty());
            assert(readable(seq![payload@]) =~= seq![obj@]);
        }
    }
    out
}

/// The live status of a thread.
#[derive(Debug, Clone)]
pub struct IpcState {
    pub thread_id: String,
    pub status: ThreadStatus,
    /// When the status was received, in seconds.
    pub updated_at: u64,
}

/// The content of an `IpcState`.
#[verifier::ext_equal]
pub struct IpcView {
    pub thread_id: Seq<char>,
    pub status: StatusView,
    pub updated_at: u64,
}

impl View for IpcState {
    type V = IpcView;

    open spec fn view(&self) -> IpcView {
        IpcView {
            thread_id: self.thread_id@,
            status: self.status@,
            updated_at: self.updated_at,
        }
    }
}

/// The text of a field that holds one.
pub open spec fn text_field(v: JsonView, name: Seq<char>) -> Option<Seq<char>> {
    match v.field(name) {
        Some(x) => x.as_text(),
        None => None,
    }
}

/// The status that a document stands for, by its `type`; None for a type that
/// is not known. Flags that are no list of texts count as none.
pub open spec fn status_in(v: JsonView) -> Option<StatusView> {
    let kind = text_field(v, "type"@);
    if kind == Some("notLoaded"@) {
        Some(StatusView::NotLoaded)
    } else if kind == Some("idle"@) {
        Some(StatusView::Idle)
    } else if kind == Some("systemError"@) {
        Some(StatusView::SystemError)
    } else if kind == Some("active"@) {
        Some(
            StatusView::Active {
                flags: match v.field("activeFlags"@) {
                    Some(f) => match f.as_texts() {
                        Some(t) => t,
                        None => Seq::empty(),
                    },
                    None => Seq::empty(),
                },
            },
        )
    } else {
        None
    }
}

/// The text of a field that holds one.
pub fn text_of_field<'a>(v: &'a Json, name: &str) -> (r: Option<&'a String>)
    ensures
        (match r {
            Some(x) => Some(x@),
            None => None,
        }) == text_field(v@, name@),
{
    match v.get(name) {
        Some(x) => x.as_str(),
        None => None,
    }
}

/// The status that a document stands for.
pub fn deserialize_status(v: &Json) -> (r: Option<ThreadStatus>)
    ensures
        (match r {
            Some(x) => Some(x@),
            None => None,
        }) == status_in(v@),
{
    match text_of_field(v, "type") {
        None => None,
        Some(kind) => {
            let kind = kind.as_str();
            if text::same(kind, "notLoaded") {
                Some(ThreadStatus::NotLoaded)
            } else if text::same(kind, "idle") {
                Some(ThreadStatus::Idle)
            } else if text::same(kind, "systemError") {
                Some(ThreadStatus::SystemError)
            } else if text::same(kind, "active") {
                let flags: Option<Vec<String>> = match v.get("activeFlags") {
                    Some(f) => f.as_strings(),
                    None => None,
                };
                let active_flags: Vec<String> = match flags {
                    Some(x) => x,
                    None => Vec::new(),
                };
                proof {
                    assert(text::texts(Seq::<String>::empty()) =~= Seq::<Seq<char>>::empty());
                    assert(text::texts(active_flags@) == active_flags@.map_values(
                        |x: String| x@,
                    ));
                }
                Some(ThreadStatus::Active { active_flags })
            } else {
                None
            }
        },
    }
}

/// The change of status that a message announces; None for any other message.
pub open spec fn broadcast_in(frame: JsonView, now_sec: u64) -> Option<IpcView> {
    if text_field(frame, "method"@) == Some("thread-stream-state-changed"@) {
        match frame.field("params"@) {
            Some(params) => match (text_field(params, "threadId"@), params.field("status"@)) {
                (Some(thread_id), Some(s)) => match status_in(s) {
                    Some(status) => Some(IpcView { thread_id, status, updated_at: now_sec }),
                    None => None,
                },
                _ => None,
            },
            None => None,
        }
    } else {
        None
    }
}

/// The change of status that a message announces, received at `now_sec`.
pub fn parse_broadcast_at(frame: &Json, now_sec: u64) -> (r: Option<IpcState>)
    ensures
        (match r {
            Some(x) => Some(x@),
            None => None,
        }) == broadcast_in(frame@, now_sec),
{
    match text_of_field(frame, "method") {
        None => None,
        Some(method) => {
            if !text::same(method.as_str(), "thread-stream-state-changed") {
                return None;
            }
            match frame.get("params") {
                None => None,
                Some(params) => match text_of_field(params, "threadId") {
                    None => None,
                    Some(thread_id) => match params.get("status") {
                        None => None,
                        Some(s) => match deserialize_status(s) {
                            None => None,
                            Some(status) => Some(
                                IpcState {
                                    thread_id: thread_id.clone(),
                                    status,
                                    updated_at: now_sec,
                                },
                            ),
                        },
                    },
                },
            }
        },
    }
}

/// The change of status that a message announces, received now.
pub fn parse_broadcast(frame: &Json) -> (r: Option<IpcState>)
    ensures
        exists|now_sec: u64|
            (match r {
                Some(x) => Some(x@),
                None => None,
            }) == #[trigger] broadcast_in(frame@, now_sec),
{
    let now_sec: u64 = now_ms() / 1000;
    parse_broadcast_at(frame, now_sec)
}

/// The live status of all threads that sent one.
pub struct IpcStates {
    table: TextMap<IpcState>,
}

impl View for IpcStates {
    type V = Map<Seq<char>, IpcView>;

    closed spec fn view(&self) -> Map<Seq<char>, IpcView> {
        self.table@.map_values(|x: IpcState| x@)
    }
}

/// A table of live status after these messages, received at `now_sec`.
pub open spec fn after_messages(
    m: Map<Seq<char>, IpcView>,
    frames: Seq<JsonView>,
    now_sec: u64,
) -> Map<Seq<char>, IpcView>
    decreases frames.len(),
{
    if frames.len() == 0 {
        m
    } else {
        let t = after_messages(m, frames.drop_last(), now_sec);
        match broadcast_in(frames.last(), now_sec) {
            Some(s) => t.insert(s.thread_id, s),
            None => t,
        }
    }
}

impl IpcStates {
    /// No live status yet.
    pub fn new() -> (r: IpcStates)
        ensures
            r@ == Map::<Seq<char>, IpcView>::empty(),
    {
        let r = IpcStates { table: TextMap::new() };
        assert(r@ =~= Map::<Seq<char>, IpcView>::empty());
        r
    }

    /// The live status of a thread; None when it has sent none.
    pub fn status_of(&self, thread_id: &str) -> (r: Option<ThreadStatus>)
        ensures
            (match r {
                Some(x) => Some(x@),
                None => None,
            }) == (if self@.contains_key(thread_id@) {
                Some(self@[thread_id@].status)
            } else {
                None
            }),
    {
        match self.table.get(thread_id) {
            Some(s) => Some(s.status.clone()),
            None => None,
        }
    }

    /// Whether any thread has sent its status.
    pub fn is_connected(&self) -> (r: bool)
        ensures
            r == !(self@ =~= Map::<Seq<char>, IpcView>::empty()),
    {
        let empty: bool = self.table.is_empty();
        proof {
            if empty {
                assert(self@ =~= Map::<Seq<char>, IpcView>::empty());
            } else {
                let k = choose|k: Seq<char>| self.table@.contains_key(k);
                assert(self@.contains_key(k));
            }
        }
        !empty
    }

    /// Takes note of the changes of status that these messages announce.
    pub fn apply(&mut self, frames: &Vec<Json>, now_sec: u64)
        ensures
            final(self)@ == after_messages(old(self)@, docs(frames@), now_sec),
    {
        let ghost start = self@;
        let ghost views = docs(frames@);
        let mut i: usize = 0;
        assert(views.take(0) == Seq::<JsonView>::empty());
        while i < frames.len()
            invariant
                i <= frames@.len(),
                views == docs(frames@),
                self@ == after_messages(start, views.take(i as int), now_sec),
            decreases frames@.len() - i,
        {
            assert(views.take(i + 1).drop_last() == views.take(i as int));
            assert(views.take(i + 1).last() == frames@[i as int]@);
            if let Some(s) = parse_broadcast_at(&frames[i], now_sec) {
                let ghost before = self@;
                let ghost sv = s@;
                self.table.insert(s.thread_id.clone(), s);
                assert(self@ =~= before.insert(sv.thread_id, sv));
            }
            i = i + 1;
        }
        assert(views.take(i as int) == views);
    }

    /// Takes in bytes that have just arrived: the messages that are complete by
    /// now are noted and taken out of `buf`. False when the bytes make no sense
    /// and the connection is of no more use; nothing is noted then.
    pub fn receive(&mut self, buf: &mut Vec<u8>, chunk: &[u8], now_sec: u64) -> (r: bool)
        ensures
            match received(old(buf)@ + chunk@) {
                Some((d, used)) => r && final(self)@ == after_messages(old(self)@, d, now_sec)
                    && final(buf)@ == (old(buf)@ + chunk@).skip(used),
                None => !r && final(self)@ == old(self)@ && final(buf)@ == old(buf)@ + chunk@,
            },
    {
        let ghost before = buf@;
        buf.extend_from_slice(chunk);
        assert(buf@ =~= before + chunk@);
        match decode_frames(buf) {
            Ok(frames) => {
                self.apply(&frames, now_sec);
                true
            },
            Err(_) => false,
        }
    }
}

/// The first message of a connection.
pub open spec fn hello(request_id: Seq<char>) -> JsonView {
    JsonView::Object(
        Map::<Seq<char>, JsonView>::empty().insert("type"@, JsonView::Text("request"@)).insert(
            "requestId"@,
            JsonView::Text(request_id),
        ).insert("method"@, JsonView::Text("initialize"@)).insert(
            "params"@,
            JsonView::Object(
                Map::<Seq<char>, JsonView>::empty().insert(
                    "clientType"@,
                    JsonView::Text("extension"@),
                ),
            ),
        ),
    )
}

/// The first message of a connection.
pub fn initialize_request(request_id: &str) -> (r: Json)
    ensures
        r@ == hello(request_id@),
{
    json::object4(
        ("type", Json::Text("request".to_string())),
        ("requestId", Json::Text(request_id.to_string())),
        ("method", Json::Text("initialize".to_string())),
        ("params", json::object1(("clientType", Json::Text("extension".to_string())))),
    )
}

/// Where the desktop application listens: below `CODEX_HOME`, else below
/// `.codex` in the home directory.
pub open spec fn socket_path(codex_home: Option<Seq<char>>, home: Option<Seq<char>>) -> Seq<char> {
    let base = match (text::filled(codex_home), home) {
        (Some(c), _) => c,
        (None, Some(h)) => protocol::joined(h, ".codex"@),
        (None, None) => "/.codex"@,
    };
    protocol::joined(protocol::joined(base, "ipc"@), "ipc.sock"@)
}

/// Where the desktop application listens, given the values of `CODEX_HOME` and `HOME`.
pub fn default_socket_path(codex_home: Option<String>, home: Option<String>) -> (r: String)
    ensures
        r@ == socket_path(text::opt(codex_home), text::opt(home)),
{
    let base = match text::clone_filled(&codex_home) {
        Some(c) => c,
        None => match home {
            Some(h) => protocol::join_path(h.as_str(), ".codex"),
            None => "/.codex".to_string(),
        },
    };
    protocol::join_path(protocol::join_path(base.as_str(), "ipc").as_str(), "ipc.sock")
}

/// A hexadecimal digit.
pub open spec fn hex_char(d: int) -> char {
    if d < 10 {
        (d + 48) as char
    } else {
        (d + 87) as char
    }
}

/// `n` in hexadecimal, with `width` digits.
pub open spec fn hex(n: nat, width: nat) -> Seq<char>
    decreases width,
{
    if width == 0 {
        Seq::empty()
    } else {
        hex(n / 16, (width - 1) as nat).push(hex_char((n % 16) as int))
    }
}

/// Appends `n` in hexadecimal, with `width` digits.
fn append_hex(s: &mut String, n: u64, width: usize)
    ensures
        final(s)@ == old(s)@ + hex(n as nat, width as nat),
    decreases width,
{
    if width == 0 {
        assert(s@ =~= old(s)@ + hex(n as nat, 0));
        return ;
    }
    append_hex(s, n / 16, width - 1);
    let d: u8 = (n % 16) as u8;
    let c: char = if d < 10 {
        (d + 48) as char
    } else {
        (d + 87) as char
    };
    s.push(c);
    assert(s@ =~= old(s)@ + hex(n as nat, width as nat));
}

/// The digits of a request id: the clock and a counter, mixed.
pub open spec fn id_digits(now: u64, seq: u64) -> (u64, u64, u64, u64, u64) {
    let b = seq.wrapping_mul(0x9e37_79b9_7f4a_7c15) & 0xffff;
    (
        (now ^ ((seq << 13) | (seq >> 51))) & 0xffff_ffff,
        b,
        b & 0xfff,
        (now >> 16) & 0xffff,
        (seq >> 8) & 0xffff_ffff_ffff,
    )
}

/// A request id in the shape of a random UUID.
pub open spec fn request_id(now: u64, seq: u64) -> Seq<char> {
    let (a, b, b_lo, c, d) = id_digits(now, seq);
    hex(a as nat, 8) + "-"@ + hex(b as nat, 4) + "-4"@ + hex(b_lo as nat, 3) + "-"@ + hex(
        c as nat,
        4,
    ) + "-"@ + hex(d as nat, 12)
}

/// A request id in the shape of a random UUID, made of the clock in nanoseconds
/// and a counter that is never used twice.
pub fn uuid_str(now: u64, seq: u64) -> (r: String)
    ensures
        r@ == request_id(now, seq),
{
    let a: u64 = (now ^ ((seq << 13) | (seq >> 51))) & 0xffff_ffff;
    let b: u64 = seq.wrapping_mul(0x9e37_79b9_7f4a_7c15) & 0xffff;
    let b_lo: u64 = b & 0xfff;
    let c: u64 = (now >> 16) & 0xffff;
    let d: u64 = (seq >> 8) & 0xffff_ffff_ffff;
    let mut s = String::new();
    append_hex(&mut s, a, 8);
    s.append("-");
    append_hex(&mut s, b, 4);
    s.append("-4");
    append_hex(&mut s, b_lo, 3);
    s.append("-");
    append_hex(&mut s, c, 4);
    s.append("-");
    append_hex(&mut s, d, 12);
    assert(s@ =~= request_id(now, seq));
    s
}

proof fn lemma_hex_length(n: nat, width: nat)
    ensures
        hex(n, width).len() == width,
    decreases width,
{
    if width > 0 {
        lemma_hex_length(n / 16, (width - 1) as nat);
    }
}

/// A request id has the shape of a UUID: groups of 8, 4, 4, 4 and 12 digits,
/// the third of which begins with a 4.
pub proof fn lemma_request_id_shape(now: u64, seq: u64)
    ensures
        request_id(now, seq).len() == 36,
        request_id(now, seq)[8] == '-',
        request_id(now, seq)[13] == '-',
        request_id(now, seq)[14] == '4',
        request_id(now, seq)[18] == '-',
        request_id(now, seq)[23] == '-',
{
    reveal_strlit("-");
    reveal_strlit("-4");
    let (a, b, b_lo, c, d) = id_digits(now, seq);
    lemma_hex_length(a as nat, 8);
    lemma_hex_length(b as nat, 4);
    lemma_hex_length(b_lo as nat, 3);
    lemma_hex_length(c as nat, 4);
    lemma_hex_length(d as nat, 12);
}

/// A frame is the length of its payload in four bytes, the lowest first, and then
/// the payload.
pub proof fn lemma_frame_layout(payload: Seq<u8>)
    requires
        payload.len() <= u32::MAX,
    ensures
        ({
            let f = frame_of(payload);
            &&& f.len() == 4 + payload.len()
            &&& f.skip(4) == payload
            &&& payload.len() == f[0] + 0x100 * f[1] + 0x1_0000 * f[2] + 0x100_0000 * f[3]
        }),
{
    reveal(length_bytes);
    let n = payload.len();
    let f = frame_of(payload);
    assert(f.skip(4) =~= payload);
    assert(f[0] as int == n % 256);
    assert(f[1] as int == (n / 256) % 256);
    assert(f[2] as int == (n / 65536) % 256);
    assert(f[3] as int == (n / 16777216) % 256);
    assert(n / 65536 == (n / 256) / 256);
    assert(n / 16777216 == (n / 65536) / 256);
    assert(n / 16777216 < 256);
}

/// A stream that starts with an empty frame or with one above the limit is
/// broken, with that length; one in which a frame is not whole yet is not.
pub proof fn lemma_broken_stream(b: Seq<u8>, n: int)
    requires
        b.len() >= 4,
        n == b[0] + 0x100 * b[1] + 0x1_0000 * b[2] + 0x100_0000 * b[3],
    ensures
        n == 0 || n > 0x1000_0000 ==> split(b) is None && bad_length(b) == Some(n),
        0 < n <= 0x1000_0000 && b.len() < 4 + n ==> split(b) == Some((Seq::<Seq<u8>>::empty(), 0int))
            && bad_length(b) is None,
        0 < n <= 0x1000_0000 && b.len() >= 4 + n ==> (split(b) is None <==> split(b.skip(4 + n))
            is None) && bad_length(b) == bad_length(b.skip(4 + n)),
{
}

/// Exactly the payloads that are readable documents are handed on, in their
/// order; the others are passed over.
pub proof fn lemma_unreadable_payloads_are_passed_over(
    before: Seq<Seq<u8>>,
    payload: Seq<u8>,
    after: Seq<Seq<u8>>,
)
    ensures
        json::parsed(payload) is None ==> readable(before + seq![payload] + after) == readable(
            before,
        ) + readable(after),
        json::parsed(payload) matches Some(v) ==> readable(before + seq![payload] + after)
            == readable(before) + seq![v] + readable(after),
        readable(Seq::empty()).len() == 0,
    decreases after.len(),
{
    let s = before + seq![payload] + after;
    if after.len() == 0 {
        assert(s.drop_last() =~= before);
        assert(s.last() == payload);
        assert(readable(after) =~= Seq::<JsonView>::empty());
        if json::parsed(payload) is Some {
            let v = json::parsed(payload)->0;
            assert(readable(before).push(v) =~= readable(before) + seq![v] + readable(after));
        } else {
            assert(readable(before) =~= readable(before) + readable(after));
        }
    } else {
        let t = after.drop_last();
        lemma_unreadable_payloads_are_passed_over(before, payload, t);
        assert(s.drop_last() =~= before + seq![payload] + t);
        assert(s.last() == after.last());
        if json::parsed(after.last()) is Some {
            let w = json::parsed(after.last())->0;
            if json::parsed(payload) is Some {
                let v = json::parsed(payload)->0;
                assert((readable(before) + seq![v] + readable(t)).push(w) =~= readable(before)
                    + seq![v] + readable(t).push(w));
            } else {
                assert((readable(before) + readable(t)).push(w) =~= readable(before) + readable(
                    t,
                ).push(w));
            }
        }
    }
}

/// A status is read by the text under its type: three plain ones, and the active
/// one with its flags. Any other document is no status.
pub proof fn lemma_status_by_its_type(m: Map<Seq<char>, JsonView>, t: Seq<char>)
    requires
        m.contains_key("type"@),
        m["type"@] == JsonView::Text(t),
    ensures
        ({
            let r = status_in(JsonView::Object(m));
            &&& r == Some(StatusView::NotLoaded) <==> t == "notLoaded"@
            &&& r == Some(StatusView::Idle) <==> t == "idle"@
            &&& r == Some(StatusView::SystemError) <==> t == "systemError"@
            &&& (r matches Some(StatusView::Active { .. })) <==> t == "active"@
            &&& r is None <==> t != "notLoaded"@ && t != "idle"@ && t != "systemError"@ && t
                != "active"@
        }),
{
    reveal_strlit("notLoaded");
    reveal_strlit("idle");
    reveal_strlit("systemError");
    reveal_strlit("active");
    assert("notLoaded"@[0] == 'n' && "idle"@[0] == 'i');
    assert("systemError"@[0] == 's' && "active"@[0] == 'a');
}

/// The flags of an active thread are the texts listed under their name; a list
/// that holds anything else, or none, gives no flag.
pub proof fn lemma_flags_of_active_thread(m: Map<Seq<char>, JsonView>, items: Seq<JsonView>)
    requires
        m.contains_key("type"@),
        m["type"@] == JsonView::Text("active"@),
        m.contains_key("activeFlags"@) ==> m["activeFlags"@] == JsonView::List(items),
    ensures
        ({
            let r = status_in(JsonView::Object(m));
            let plain = forall|i: int| 0 <= i < items.len() ==> (#[trigger] items[i]) is Text;
            &&& r matches Some(StatusView::Active { .. })
            &&& m.contains_key("activeFlags"@) && plain ==> r->0->flags.len() == items.len()
                && forall|i: int|
                0 <= i < items.len() ==> #[trigger] items[i] == JsonView::Text(r->0->flags[i])
            &&& !(m.contains_key("activeFlags"@) && plain) ==> r->0->flags.len() == 0
        }),
{
    reveal_strlit("notLoaded");
    reveal_strlit("idle");
    reveal_strlit("systemError");
    reveal_strlit("active");
    assert("notLoaded"@[0] == 'n' && "idle"@[0] == 'i');
    assert("systemError"@[0] == 's' && "active"@[0] == 'a');
}

/// A document that is no object, or whose type is no text, is no status.
pub proof fn lemma_no_status_without_a_type(v: JsonView)
    requires
        !(v matches JsonView::Object(m) && m.contains_key("type"@) && m["type"@] is Text),
    ensures
        status_in(v) is None,
{
}

/// A message tells of a thread exactly if it is of the method of status changes
/// and its parameters hold the id of a thread, a text, and a status; it tells of
/// that thread, that status and the time it came.
pub proof fn lemma_message_tells_of_its_thread(frame: JsonView, now_sec: u64)
    ensures
        ({
            let r = broadcast_in(frame, now_sec);
            let params = frame->Object_0["params"@]->Object_0;
            let whole = {
                &&& frame is Object
                &&& frame->Object_0.contains_key("method"@)
                &&& frame->Object_0["method"@] == JsonView::Text("thread-stream-state-changed"@)
                &&& frame->Object_0.contains_key("params"@)
                &&& frame->Object_0["params"@] is Object
                &&& params.contains_key("threadId"@)
                &&& params["threadId"@] is Text
                &&& params.contains_key("status"@)
                &&& status_in(params["status"@]) is Some
            };
            &&& r is Some <==> whole
            &&& r matches Some(s) ==> s.thread_id == params["threadId"@]->Text_0 && Some(s.status)
                == status_in(params["status"@]) && s.updated_at == now_sec
        }),
{
}

/// Of the messages that tell of one thread the last counts; a thread that none
/// tells of stays as it was.
pub proof fn lemma_last_message_counts(
    m: Map<Seq<char>, IpcView>,
    frames: Seq<JsonView>,
    now_sec: u64,
    id: Seq<char>,
    i: int,
)
    requires
        -1 <= i < frames.len(),
        forall|k: int|
            i < k < frames.len() ==> !(broadcast_in(#[trigger] frames[k], now_sec) matches Some(s)
                && s.thread_id == id),
        i >= 0 ==> (broadcast_in(frames[i], now_sec) matches Some(s) && s.thread_id == id),
    ensures
        ({
            let r = after_messages(m, frames, now_sec);
            &&& i >= 0 ==> r.contains_key(id) && Some(r[id]) == broadcast_in(frames[i], now_sec)
            &&& i < 0 ==> r.contains_key(id) == m.contains_key(id) && r[id] == m[id]
        }),
    decreases frames.len(),
{
    if frames.len() > 0 {
        let n = frames.len() - 1;
        if i < n {
            let t = frames.drop_last();
            assert forall|k: int| i < k < t.len() implies !(broadcast_in(
                #[trigger] t[k],
                now_sec,
            ) matches Some(s) && s.thread_id == id) by {
                assert(t[k] == frames[k]);
            }
            lemma_last_message_counts(m, t, now_sec, id, i);
            assert(!(broadcast_in(frames[n], now_sec) matches Some(s) && s.thread_id == id));
        }
    }
}

/// The greeting is a request with the given id for the initialisation, as an
/// extension, and says nothing else.
pub proof fn lemma_greeting(id: Seq<char>)
    ensures
        ({
            let h = hello(id);
            &&& h is Object
            &&& h->Object_0.dom() =~= set!["type"@, "requestId"@, "method"@, "params"@]
            &&& h->Object_0["type"@] == JsonView::Text("request"@)
            &&& h->Object_0["requestId"@] == JsonView::Text(id)
            &&& h->Object_0["method"@] == JsonView::Text("initialize"@)
            &&& h->Object_0["params"@] is Object
            &&& h->Object_0["params"@]->Object_0.dom() =~= set!["clientType"@]
            &&& h->Object_0["params"@]->Object_0["clientType"@] == JsonView::Text("extension"@)
        }),
{
    reveal_strlit("type");
    reveal_strlit("requestId");
    reveal_strlit("method");
    reveal_strlit("params");
    assert("type"@[0] == 't' && "requestId"@[0] == 'r' && "method"@[0] == 'm');
    assert("params"@[0] == 'p');
}

/// The socket is in the folder that is set for Codex, or else in the one under
/// the home folder; an empty setting is none.
pub proof fn lemma_socket_is_in_the_codex_folder(c: Seq<char>, home: Option<Seq<char>>, h: Seq<char>)
    requires
        c.len() > 0 ==> c.last() != '/',
        h.len() > 0,
        h.last() != '/',
    ensures
        c.len() > 0 ==> socket_path(Some(c), home) == c + "/ipc/ipc.sock"@,
        socket_path(None, Some(h)) == h + "/.codex/ipc/ipc.sock"@,
        socket_path(None, None) == "/.codex/ipc/ipc.sock"@,
        c.len() == 0 ==> socket_path(Some(c), home) == socket_path(None, home),
{
    reveal_strlit("/ipc/ipc.sock");
    reveal_strlit("/.codex/ipc/ipc.sock");
    reveal_strlit("/.codex");
    reveal_strlit(".codex");
    reveal_strlit("ipc");
    reveal_strlit("ipc.sock");
    reveal_strlit("/");
    if c.len() > 0 {
        let d = c + "/"@ + "ipc"@;
        assert(d.last() == 'c');
        assert(d + "/"@ + "ipc.sock"@ =~= c + "/ipc/ipc.sock"@);
    }
    let e = h + "/"@ + ".codex"@;
    assert(e.last() == 'x');
    let f = e + "/"@ + "ipc"@;
    assert(f.last() == 'c');
    assert(f + "/"@ + "ipc.sock"@ =~= h + "/.codex/ipc/ipc.sock"@);
    let g = "/.codex"@ + "/"@ + "ipc"@;
    assert("/.codex"@.last() == 'x');
    assert(g.last() == 'c');
    assert(g + "/"@ + "ipc.sock"@ =~= "/.codex/ipc/ipc.sock"@);
}

} // verus!
