//! Which session gets which key.
//!
//! A pinned key shows its session and nothing else. The other sessions fill the
//! free keys from left to right, the most urgent first. Sessions that are done
//! are never dropped for their age: they only rank below the active ones.
use crate::ordering;
use crate::ordering::Rank;
use crate::protocol::{SessionSnapshot, SnapshotView, SLOT_COUNT};
use std::collections::HashMap;
use vstd::prelude::*;

verus! {

/// A session and how urgent it is, from 0 to `URGENCY_FULL_WAIT_MS`.
#[derive(Debug)]
pub struct ScoredSession {
    pub snapshot: SessionSnapshot,
    pub urgency: u64,
}

/// The content of a `ScoredSession`.
#[verifier::ext_equal]
pub struct ScoredView {
    pub snapshot: SnapshotView,
    pub urgency: u64,
}

impl View for ScoredSession {
    type V = ScoredView;

    open spec fn view(&self) -> ScoredView {
        ScoredView { snapshot: self.snapshot@, urgency: self.urgency }
    }
}

impl Clone for ScoredSession {
    fn clone(&self) -> (r: ScoredSession)
        ensures
            r == *self,
    {
        ScoredSession { snapshot: self.snapshot.clone(), urgency: self.urgency }
    }
}

/// How many keys there are, which one has the focus, and which are pinned.
#[derive(Debug, Clone)]
pub struct SlotAllocatorOptions {
    pub slot_count: usize,
    pub focus: Option<usize>,
    pub pins: HashMap<usize, String>,
}

/// The pins of a board: key number to session id.
pub open spec fn pin_ids(pins: Map<usize, String>) -> Map<usize, Seq<char>> {
    pins.map_values(|id: String| id@)
}

impl Default for SlotAllocatorOptions {
    fn default() -> (r: SlotAllocatorOptions)
        ensures
            r.slot_count == SLOT_COUNT,
            r.focus is None,
            r.pins@ == Map::<usize, String>::empty(),
    {
        SlotAllocatorOptions { slot_count: SLOT_COUNT, focus: None, pins: HashMap::new() }
    }
}

/// One key and the session on it.
#[derive(Debug, Clone)]
pub struct AllocatedSlot {
    pub i: usize,
    pub session: Option<ScoredSession>,
    pub pinned: bool,
}

/// The content of an `AllocatedSlot`.
#[verifier::ext_equal]
pub struct SlotView {
    pub i: int,
    pub session: Option<ScoredView>,
    pub pinned: bool,
}

impl View for AllocatedSlot {
    type V = SlotView;

    open spec fn view(&self) -> SlotView {
        SlotView {
            i: self.i as int,
            session: match self.session {
                Some(s) => Some(s@),
                None => None,
            },
            pinned: self.pinned,
        }
    }
}

/// The contents of a list of sessions.
pub open spec fn scored(s: Seq<ScoredSession>) -> Seq<ScoredView> {
    s.map_values(|x: ScoredSession| x@)
}

/// The contents of a list of keys.
pub open spec fn slot_views(s: Seq<AllocatedSlot>) -> Seq<SlotView> {
    s.map_values(|x: AllocatedSlot| x@)
}

/// Priority of the status first, then urgency, then the time of the last update.
pub open spec fn session_rank(s: ScoredView) -> Rank {
    Rank {
        first: s.snapshot.status.spec_priority() as u64,
        second: s.urgency,
        third: s.snapshot.updated_at,
    }
}

/// Session `k` is the last one listed under its id, the one that counts.
pub open spec fn is_latest(s: Seq<ScoredView>, k: int) -> bool {
    forall|j: int|
        k < j < s.len() ==> (#[trigger] s[j]).snapshot.session_id != s[k].snapshot.session_id
}

/// The last session listed under an id.
pub open spec fn latest_with_id(s: Seq<ScoredView>, id: Seq<char>) -> Option<ScoredView>
    decreases s.len(),
{
    if s.len() == 0 {
        None
    } else if s.last().snapshot.session_id == id {
        Some(s.last())
    } else {
        latest_with_id(s.drop_last(), id)
    }
}

/// Key `i` is pinned.
pub open spec fn pinned_at(pins: Map<usize, Seq<char>>, i: int) -> bool {
    0 <= i <= usize::MAX && pins.contains_key(i as usize)
}

/// Some key of the board is pinned to this session.
pub open spec fn pinned_id(pins: Map<usize, Seq<char>>, slot_count: int, id: Seq<char>) -> bool {
    exists|i: int| #![trigger pinned_at(pins, i)]
        0 <= i < slot_count && pinned_at(pins, i) && pins[i as usize] == id
}

/// Session `k` competes for a free key: it counts, and no key is pinned to it.
pub open spec fn competes(
    s: Seq<ScoredView>,
    pins: Map<usize, Seq<char>>,
    slot_count: int,
    k: int,
) -> bool {
    is_latest(s, k) && !pinned_id(pins, slot_count, s[k].snapshot.session_id)
}

/// The sessions among the first `n` that compete for a free key.
pub open spec fn competing(
    s: Seq<ScoredView>,
    pins: Map<usize, Seq<char>>,
    slot_count: int,
    n: int,
) -> Seq<ScoredView>
    decreases n,
{
    if n <= 0 {
        Seq::empty()
    } else if competes(s, pins, slot_count, n - 1) {
        competing(s, pins, slot_count, n - 1).push(s[n - 1])
    } else {
        competing(s, pins, slot_count, n - 1)
    }
}

/// The competing sessions, most urgent first.
pub open spec fn queue(
    s: Seq<ScoredView>,
    pins: Map<usize, Seq<char>>,
    slot_count: int,
) -> Seq<ScoredView> {
    ordering::ranked(
        competing(s, pins, slot_count, s.len() as int),
        |x: ScoredView| session_rank(x),
    )
}

/// Number of free keys left of key `i`.
pub open spec fn free_before(pins: Map<usize, Seq<char>>, i: int) -> int
    decreases i,
{
    if i <= 0 {
        0
    } else {
        free_before(pins, i - 1) + if pinned_at(pins, i - 1) {
            0int
        } else {
            1
        }
    }
}

/// What key `i` shows: its pinned session, or its turn in the queue.
pub open spec fn slot_at(
    s: Seq<ScoredView>,
    pins: Map<usize, Seq<char>>,
    slot_count: int,
    i: int,
) -> SlotView {
    if pinned_at(pins, i) {
        SlotView { i, session: latest_with_id(s, pins[i as usize]), pinned: true }
    } else {
        let q = queue(s, pins, slot_count);
        let k = free_before(pins, i);
        SlotView {
            i,
            session: if k < q.len() {
                Some(q[k])
            } else {
                None
            },
            pinned: false,
        }
    }
}

/// What every key shows.
pub open spec fn allocation(
    s: Seq<ScoredView>,
    pins: Map<usize, Seq<char>>,
    slot_count: int,
) -> Seq<SlotView> {
    Seq::new(slot_count as nat, |i: int| slot_at(s, pins, slot_count, i))
}

/// Whether session `k` is the last one listed under its id.
fn counts(sessions: &[ScoredSession], k: usize) -> (r: bool)
    requires
        k < sessions@.len(),
    ensures
        r == is_latest(scored(sessions@), k as int),
{
    let n: usize = sessions.len();
    let mut j: usize = k + 1;
    while j < n
        invariant
            n == sessions@.len(),
            k < j <= n,
            forall|a: int|
                k < a < j ==> (#[trigger] scored(sessions@)[a]).snapshot.session_id != scored(
                    sessions@,
                )[k as int].snapshot.session_id,
        decreases n - j,
    {
        if sessions[j].snapshot.session_id == sessions[k].snapshot.session_id {
            assert(scored(sessions@)[j as int].snapshot.session_id == scored(
                sessions@,
            )[k as int].snapshot.session_id);
            return false;
        }
        assert(scored(sessions@)[j as int].snapshot.session_id != scored(
            sessions@,
        )[k as int].snapshot.session_id);
        j = j + 1;
    }
    true
}

/// Whether some key of the board is pinned to this session.
fn is_pinned(pins: &HashMap<usize, String>, slot_count: usize, id: &String) -> (r: bool)
    ensures
        r == pinned_id(pin_ids(pins@), slot_count as int, id@),
{
    broadcast use vstd::std_specs::hash::group_hash_axioms;

    let ghost ids = pin_ids(pins@);
    let mut i: usize = 0;
    while i < slot_count
        invariant
            i <= slot_count,
            ids == pin_ids(pins@),
            forall|j: int|
                0 <= j < i ==> !(#[trigger] pinned_at(ids, j) && ids[j as usize] == id@),
        decreases slot_count - i,
    {
        match pins.get(&i) {
            Some(p) => {
                if *p == *id {
                    assert(pinned_at(ids, i as int));
                    return true;
                }
            },
            None => {},
        }
        i = i + 1;
    }
    false
}

/// The last session listed under an id.
fn find(sessions: &[ScoredSession], id: &String) -> (r: Option<ScoredSession>)
    ensures
        (match r {
            Some(x) => Some(x@),
            None => None,
        }) == latest_with_id(scored(sessions@), id@),
{
    let ghost s = scored(sessions@);
    let mut k: usize = sessions.len();
    assert(s.take(k as int) == s);
    while k > 0
        invariant
            k <= sessions@.len(),
            s == scored(sessions@),
            latest_with_id(s, id@) == latest_with_id(s.take(k as int), id@),
        decreases k,
    {
        assert(s.take(k as int).last() == s[k - 1]);
        assert(s.take(k as int).drop_last() == s.take(k - 1));
        if sessions[k - 1].snapshot.session_id == *id {
            return Some(sessions[k - 1].clone());
        }
        k = k - 1;
    }
    None
}

/// Rank of a session in the queue.
fn rank_of(s: &ScoredSession) -> (r: Rank)
    ensures
        r == session_rank(s@),
{
    Rank {
        first: s.snapshot.status.priority() as u64,
        second: s.urgency,
        third: s.snapshot.updated_at,
    }
}

/// The competing sessions, most urgent first, as positions in `sessions`.
fn queue_of(sessions: &[ScoredSession], pins: &HashMap<usize, String>, slot_count: usize) -> (r: Vec<
    usize,
>)
    ensures
        forall|a: int| 0 <= a < r@.len() ==> (#[trigger] r@[a]) < sessions@.len(),
        r@.map_values(|k: usize| scored(sessions@)[k as int]) == queue(
            scored(sessions@),
            pin_ids(pins@),
            slot_count as int,
        ),
{
    let ghost s = scored(sessions@);
    let ghost ids = pin_ids(pins@);
    let ghost key = |x: ScoredView| session_rank(x);
    let ghost at = |k: usize| s[k as int];
    let mut cand: Vec<usize> = Vec::new();
    let mut ranks: Vec<Rank> = Vec::new();
    let mut k: usize = 0;
    while k < sessions.len()
        invariant
            k <= sessions@.len(),
            s == scored(sessions@),
            ids == pin_ids(pins@),
            at == (|k: usize| s[k as int]),
            key == (|x: ScoredView| session_rank(x)),
            cand@.map_values(at) == competing(s, ids, slot_count as int, k as int),
            ranks@ == cand@.map_values(at).map_values(key),
            forall|a: int| 0 <= a < cand@.len() ==> (#[trigger] cand@[a]) < sessions@.len(),
        decreases sessions@.len() - k,
    {
        if counts(sessions, k) && !is_pinned(pins, slot_count, &sessions[k].snapshot.session_id) {
            let ghost before = cand@;
            cand.push(k);
            ranks.push(rank_of(&sessions[k]));
            assert(cand@.map_values(at) == before.map_values(at).push(s[k as int]));
            assert(ranks@ == cand@.map_values(at).map_values(key));
        }
        k = k + 1;
    }
    let p = ordering::order(&ranks);
    let mut out: Vec<usize> = Vec::new();
    let ghost order = ordering::as_ints(p@);
    assert(forall|a: int| 0 <= a < p@.len() ==> p@[a] == #[trigger] order[a]);
    assert forall|b: int| 0 <= b < p@.len() implies 0 <= #[trigger] p@[b] < cand@.len() by {
        assert(0 <= order[b] < ranks@.len());
    }
    let mut a: usize = 0;
    while a < p.len()
        invariant
            a <= p@.len(),
            p@.len() == order.len(),
            p@.len() == cand@.len(),
            out@.len() == a,
            forall|b: int| 0 <= b < p@.len() ==> 0 <= #[trigger] p@[b] < cand@.len(),
            forall|b: int| 0 <= b < p@.len() ==> p@[b] == #[trigger] order[b],
            forall|b: int| 0 <= b < a ==> out@[b] == cand@[#[trigger] order[b]],
            forall|b: int| 0 <= b < cand@.len() ==> (#[trigger] cand@[b]) < sessions@.len(),
            forall|b: int| 0 <= b < out@.len() ==> (#[trigger] out@[b]) < sessions@.len(),
        decreases p@.len() - a,
    {
        assert(p@[a as int] == order[a as int]);
        out.push(cand[p[a]]);
        a = a + 1;
    }
    proof {
        let c = competing(s, ids, slot_count as int, s.len() as int);
        assert(c.map_values(key) == ranks@);
        assert(out@.map_values(at) =~= ordering::pick(c, order));
        assert(out@.map_values(|k: usize| scored(sessions@)[k as int]) =~= out@.map_values(at));
    }
    out
}

/// What every key shows: pinned keys their session, free keys the queue from
/// left to right. `now` has no influence: done sessions do not age out.
pub fn allocate_slots(
    sessions: &[ScoredSession],
    opts: &SlotAllocatorOptions,
    now: u64,
) -> (slots: Vec<AllocatedSlot>)
    ensures
        slot_views(slots@) == allocation(
            scored(sessions@),
            pin_ids(opts.pins@),
            opts.slot_count as int,
        ),
{
    broadcast use vstd::std_specs::hash::group_hash_axioms;

    let ghost s = scored(sessions@);
    let ghost ids = pin_ids(opts.pins@);
    let slot_count: usize = opts.slot_count;
    let q = queue_of(sessions, &opts.pins, slot_count);
    let ghost qv = queue(s, ids, slot_count as int);
    let mut slots: Vec<AllocatedSlot> = Vec::new();
    let mut cursor: usize = 0;
    let mut i: usize = 0;
    assert(forall|a: int| 0 <= a < q@.len() ==> s[(#[trigger] q@[a]) as int] == qv[a]) by {
        assert forall|a: int| 0 <= a < q@.len() implies s[(#[trigger] q@[a]) as int] == qv[a] by {
            assert(qv[a] == q@.map_values(|k: usize| scored(sessions@)[k as int])[a]);
        }
    }
    while i < slot_count
        invariant
            i <= slot_count,
            slot_count == opts.slot_count,
            s == scored(sessions@),
            ids == pin_ids(opts.pins@),
            qv == queue(s, ids, slot_count as int),
            q@.len() == qv.len(),
            forall|a: int| 0 <= a < q@.len() ==> (#[trigger] q@[a]) < sessions@.len(),
            forall|a: int| 0 <= a < q@.len() ==> s[(#[trigger] q@[a]) as int] == qv[a],
            cursor <= q@.len(),
            cursor == (if free_before(ids, i as int) < qv.len() {
                free_before(ids, i as int)
            } else {
                qv.len() as int
            }),
            slots@.len() == i,
            forall|j: int|
                0 <= j < i ==> (#[trigger] slots@[j])@ == slot_at(s, ids, slot_count as int, j),
        decreases slot_count - i,
    {
        let slot = match opts.pins.get(&i) {
            Some(id) => {
                assert(pinned_at(ids, i as int));
                AllocatedSlot { i, session: find(sessions, id), pinned: true }
            },
            None => {
                assert(!pinned_at(ids, i as int));
                if cursor < q.len() {
                    let x = sessions[q[cursor]].clone();
                    assert(x@ == s[q@[cursor as int] as int]);
                    cursor = cursor + 1;
                    AllocatedSlot { i, session: Some(x), pinned: false }
                } else {
                    AllocatedSlot { i, session: None, pinned: false }
                }
            },
        };
        assert(slot@ == slot_at(s, ids, slot_count as int, i as int));
        slots.push(slot);
        i = i + 1;
    }
    assert(slot_views(slots@) =~= allocation(s, ids, slot_count as int));
    slots
}

pub(crate) proof fn lemma_free_before(pins: Map<usize, Seq<char>>, i: int, j: int)
    requires
        0 <= i <= j,
    ensures
        0 <= free_before(pins, i) <= free_before(pins, j),
        free_before(pins, j) - free_before(pins, i) <= j - i,
        i < j && !pinned_at(pins, i) ==> free_before(pins, i) < free_before(pins, j),
    decreases j,
{
    if i < j {
        lemma_free_before(pins, i, j - 1);
    } else if i > 0 {
        lemma_free_before(pins, i - 1, j - 1);
    }
}

/// For each turn below the number of free keys there is a free key.
proof fn lemma_turn_has_key(pins: Map<usize, Seq<char>>, slot_count: int, turn: int) -> (i: int)
    requires
        0 <= turn < free_before(pins, slot_count),
    ensures
        0 <= i < slot_count,
        !pinned_at(pins, i),
        free_before(pins, i) == turn,
    decreases slot_count,
{
    if !pinned_at(pins, slot_count - 1) && free_before(pins, slot_count - 1) == turn {
        slot_count - 1
    } else {
        lemma_turn_has_key(pins, slot_count - 1, turn)
    }
}

proof fn lemma_competing(
    s: Seq<ScoredView>,
    pins: Map<usize, Seq<char>>,
    slot_count: int,
    n: int,
)
    requires
        0 <= n <= s.len(),
    ensures
        forall|a: int|
            0 <= a < competing(s, pins, slot_count, n).len() ==> exists|k: int|
                0 <= k < n && competes(s, pins, slot_count, k) && s[k]
                    == #[trigger] competing(s, pins, slot_count, n)[a],
        forall|k: int|
            0 <= k < n && competes(s, pins, slot_count, k) ==> competing(
                s,
                pins,
                slot_count,
                n,
            ).contains(#[trigger] s[k]),
        forall|a: int, b: int|
            0 <= a < b < competing(s, pins, slot_count, n).len() ==> (#[trigger] competing(
                s,
                pins,
                slot_count,
                n,
            )[a]).snapshot.session_id != (#[trigger] competing(
                s,
                pins,
                slot_count,
                n,
            )[b]).snapshot.session_id,
    decreases n,
{
    if n > 0 {
        lemma_competing(s, pins, slot_count, n - 1);
        let c0 = competing(s, pins, slot_count, n - 1);
        let c = competing(s, pins, slot_count, n);
        assert forall|a: int| 0 <= a < c.len() implies exists|k: int|
            0 <= k < n && competes(s, pins, slot_count, k) && s[k] == #[trigger] c[a] by {
            if a < c0.len() {
                let k = choose|k: int|
                    0 <= k < n - 1 && competes(s, pins, slot_count, k) && s[k] == c0[a];
                assert(0 <= k < n && competes(s, pins, slot_count, k) && s[k] == c[a]);
            } else {
                assert(s[n - 1] == c[a]);
            }
        }
        assert forall|k: int| 0 <= k < n && competes(s, pins, slot_count, k) implies c.contains(
            #[trigger] s[k],
        ) by {
            if k < n - 1 {
                assert(c0.contains(s[k]));
                let a = choose|a: int| 0 <= a < c0.len() && c0[a] == s[k];
                assert(c[a] == s[k]);
            } else {
                assert(c[c.len() - 1] == s[k]);
            }
        }
        assert forall|a: int, b: int| 0 <= a < b < c.len() implies (
        #[trigger] c[a]).snapshot.session_id != (#[trigger] c[b]).snapshot.session_id by {
            if b < c0.len() {
                assert(c0[a].snapshot.session_id != c0[b].snapshot.session_id);
            } else {
                let k = choose|k: int|
                    0 <= k < n - 1 && competes(s, pins, slot_count, k) && s[k] == c0[a];
                assert(is_latest(s, k));
                assert(s[n - 1].snapshot.session_id != s[k].snapshot.session_id);
            }
        }
    }
}

/// The queue holds each competing session once.
proof fn lemma_queue(s: Seq<ScoredView>, pins: Map<usize, Seq<char>>, slot_count: int)
    ensures
        forall|a: int|
            0 <= a < queue(s, pins, slot_count).len() ==> exists|k: int|
                0 <= k < s.len() && competes(s, pins, slot_count, k) && s[k] == #[trigger] queue(
                    s,
                    pins,
                    slot_count,
                )[a],
        forall|k: int|
            0 <= k < s.len() && competes(s, pins, slot_count, k) ==> queue(
                s,
                pins,
                slot_count,
            ).contains(#[trigger] s[k]),
        forall|a: int, b: int|
            0 <= a < b < queue(s, pins, slot_count).len() ==> (#[trigger] queue(
                s,
                pins,
                slot_count,
            )[a]).snapshot.session_id != (#[trigger] queue(s, pins, slot_count)[b]).snapshot.session_id
                && !ordering::above(
                session_rank(queue(s, pins, slot_count)[b]),
                session_rank(queue(s, pins, slot_count)[a]),
            ),
{
    let c = competing(s, pins, slot_count, s.len() as int);
    let q = queue(s, pins, slot_count);
    let key = |x: ScoredView| session_rank(x);
    lemma_competing(s, pins, slot_count, s.len() as int);
    ordering::lemma_ranked(c, key);
    let ranks = c.map_values(key);
    let p = ordering::order_of(ranks);
    ordering::lemma_order_of(ranks);
    assert(q == ordering::pick(c, p));
    assert forall|a: int| 0 <= a < q.len() implies exists|k: int|
        0 <= k < s.len() && competes(s, pins, slot_count, k) && s[k] == #[trigger] q[a] by {
        let i = p[a];
        let k = choose|k: int|
            0 <= k < s.len() && competes(s, pins, slot_count, k) && s[k] == c[i];
        assert(s[k] == q[a]);
    }
    assert forall|k: int| 0 <= k < s.len() && competes(s, pins, slot_count, k) implies q.contains(
        #[trigger] s[k],
    ) by {
        assert(c.contains(s[k]));
    }
    assert forall|a: int, b: int| 0 <= a < b < q.len() implies (
    #[trigger] q[a]).snapshot.session_id != (#[trigger] q[b]).snapshot.session_id
        && !ordering::above(session_rank(q[b]), session_rank(q[a])) by {
        let i = p[a];
        let j = p[b];
        assert(ordering::precedes(ranks, i, j));
        assert(i != j);
        if i < j {
            assert(c[i].snapshot.session_id != c[j].snapshot.session_id);
        } else {
            assert(c[j].snapshot.session_id != c[i].snapshot.session_id);
        }
        assert(!ordering::above(key(q[b]), key(q[a])));
    }
}

/// Keys are numbered from 0 without a gap, one per slot.
pub proof fn lemma_slots_are_numbered(
    s: Seq<ScoredView>,
    pins: Map<usize, Seq<char>>,
    slot_count: int,
)
    requires
        0 <= slot_count,
    ensures
        allocation(s, pins, slot_count).len() == slot_count,
        forall|i: int|
            0 <= i < slot_count ==> (#[trigger] allocation(s, pins, slot_count)[i]).i == i,
{
}

/// A pinned key is reserved: it shows the session it is pinned to, or nothing
/// while that session is unknown. It is never given to another session.
pub proof fn lemma_pinned_key_is_reserved(
    s: Seq<ScoredView>,
    pins: Map<usize, Seq<char>>,
    slot_count: int,
    i: int,
)
    requires
        0 <= i < slot_count,
        pinned_at(pins, i),
    ensures
        ({
            let slot = allocation(s, pins, slot_count)[i];
            &&& slot.pinned
            &&& slot.session matches Some(x) ==> x.snapshot.session_id == pins[i as usize]
                && s.contains(x)
            &&& slot.session is None <==> forall|k: int|
                0 <= k < s.len() ==> (#[trigger] s[k]).snapshot.session_id != pins[i as usize]
        }),
{
    lemma_latest_with_id(s, pins[i as usize]);
}

proof fn lemma_latest_with_id(s: Seq<ScoredView>, id: Seq<char>)
    ensures
        latest_with_id(s, id) matches Some(x) ==> x.snapshot.session_id == id && s.contains(x),
        latest_with_id(s, id) is None <==> forall|k: int|
            0 <= k < s.len() ==> (#[trigger] s[k]).snapshot.session_id != id,
    decreases s.len(),
{
    if s.len() > 0 {
        let t = s.drop_last();
        lemma_latest_with_id(t, id);
        if s.last().snapshot.session_id == id {
            assert(s[s.len() - 1] == s.last());
        } else {
            if latest_with_id(t, id) is Some {
                let x = latest_with_id(t, id)->0;
                let a = choose|a: int| 0 <= a < t.len() && t[a] == x;
                assert(s[a] == x);
            } else {
                assert forall|k: int| 0 <= k < s.len() implies (
                #[trigger] s[k]).snapshot.session_id != id by {
                    if k < t.len() {
                        assert(t[k].snapshot.session_id != id);
                    }
                }
            }
        }
    }
}

/// Free keys are filled from the left, the most urgent session first: a free
/// key to the right shows a session only if every free key to its left shows
/// one of at least the same rank.
pub proof fn lemma_free_keys_by_urgency(
    s: Seq<ScoredView>,
    pins: Map<usize, Seq<char>>,
    slot_count: int,
    i: int,
    j: int,
)
    requires
        0 <= i < j < slot_count,
        !pinned_at(pins, i),
        !pinned_at(pins, j),
        allocation(s, pins, slot_count)[j].session is Some,
    ensures
        allocation(s, pins, slot_count)[i].session is Some,
        !ordering::above(
            session_rank(allocation(s, pins, slot_count)[j].session->0),
            session_rank(allocation(s, pins, slot_count)[i].session->0),
        ),
{
    lemma_free_before(pins, i, j);
    lemma_queue(s, pins, slot_count);
}

/// No session takes two free keys, and none takes a free key while it is
/// pinned to another one.
pub proof fn lemma_session_takes_one_free_key(
    s: Seq<ScoredView>,
    pins: Map<usize, Seq<char>>,
    slot_count: int,
    i: int,
    j: int,
)
    requires
        0 <= i < slot_count,
        0 <= j < slot_count,
        i != j,
        !pinned_at(pins, i),
        allocation(s, pins, slot_count)[i].session is Some,
        allocation(s, pins, slot_count)[j].session is Some,
    ensures
        allocation(s, pins, slot_count)[i].session->0.snapshot.session_id != allocation(
            s,
            pins,
            slot_count,
        )[j].session->0.snapshot.session_id,
{
    lemma_queue(s, pins, slot_count);
    if pinned_at(pins, j) {
        let q = queue(s, pins, slot_count);
        let a = free_before(pins, i);
        lemma_free_before(pins, 0, i);
        let x = q[a];
        let k = choose|k: int| 0 <= k < s.len() && competes(s, pins, slot_count, k) && s[k] == x;
        lemma_latest_with_id(s, pins[j as usize]);
        assert(pinned_at(pins, j));
    } else {
        lemma_free_before(pins, 0, i);
        lemma_free_before(pins, 0, j);
        if i < j {
            lemma_free_before(pins, i, j);
        } else {
            lemma_free_before(pins, j, i);
        }
    }
}

/// A known session is missing from the board only when every free key is taken:
/// if some free key is empty, each session is shown, under its latest state.
pub proof fn lemma_nothing_is_dropped_while_room(
    s: Seq<ScoredView>,
    pins: Map<usize, Seq<char>>,
    slot_count: int,
    i: int,
    k: int,
) -> (j: int)
    requires
        0 <= i < slot_count,
        slot_count <= usize::MAX,
        !pinned_at(pins, i),
        allocation(s, pins, slot_count)[i].session is None,
        0 <= k < s.len(),
        is_latest(s, k),
    ensures
        0 <= j < slot_count,
        allocation(s, pins, slot_count)[j].session == Some(s[k]),
{
    lemma_queue(s, pins, slot_count);
    let q = queue(s, pins, slot_count);
    if competes(s, pins, slot_count, k) {
        assert(q.contains(s[k]));
        let turn = choose|a: int| 0 <= a < q.len() && q[a] == s[k];
        lemma_free_before(pins, i, slot_count);
        lemma_turn_has_key(pins, slot_count, turn)
    } else {
        let id = s[k].snapshot.session_id;
        assert(pinned_id(pins, slot_count, id));
        let j = choose|j: int| #![trigger pinned_at(pins, j)]
            0 <= j < slot_count && pinned_at(pins, j) && pins[j as usize] == id;
        lemma_latest_is_found(s, k);
        j
    }
}

proof fn lemma_latest_is_found(s: Seq<ScoredView>, k: int)
    requires
        0 <= k < s.len(),
        is_latest(s, k),
    ensures
        latest_with_id(s, s[k].snapshot.session_id) == Some(s[k]),
    decreases s.len(),
{
    if k < s.len() - 1 {
        assert(s[s.len() - 1].snapshot.session_id != s[k].snapshot.session_id);
        let t = s.drop_last();
        assert forall|j: int| k < j < t.len() implies (#[trigger] t[j]).snapshot.session_id
            != t[k].snapshot.session_id by {
            assert(s[j].snapshot.session_id != s[k].snapshot.session_id);
        }
        lemma_latest_is_found(t, k);
    }
}

/// `x` needs a key no less than `y`: by its status first, in the row waiting,
/// error, working, done, idle, off; then by how urgent it is; then by how lately
/// it was updated.
pub open spec fn needs_no_less(x: ScoredView, y: ScoredView) -> bool {
    let a = x.snapshot.status;
    let b = y.snapshot.status;
    if a == b {
        x.urgency > y.urgency || x.urgency == y.urgency && x.snapshot.updated_at
            >= y.snapshot.updated_at
    } else {
        ||| a is Waiting
        ||| a is Error && !(b is Waiting)
        ||| a is Working && !(b is Waiting) && !(b is Error)
        ||| a is Done && (b is Idle || b is Off)
        ||| a is Idle && b is Off
    }
}

proof fn lemma_rank_is_need(x: ScoredView, y: ScoredView)
    ensures
        needs_no_less(x, y) <==> !ordering::above(session_rank(y), session_rank(x)),
{
}

/// Of two free keys the one on the left shows the session that needs it no less;
/// of two that need it alike, the one that is listed first.
pub proof fn lemma_free_keys_by_need(
    s: Seq<ScoredView>,
    pins: Map<usize, Seq<char>>,
    slot_count: int,
    i: int,
    j: int,
)
    requires
        0 <= i < j < slot_count <= usize::MAX,
        !pins.contains_key(i as usize),
        !pins.contains_key(j as usize),
        allocation(s, pins, slot_count)[j].session is Some,
    ensures
        ({
            let left = allocation(s, pins, slot_count)[i].session;
            let right = allocation(s, pins, slot_count)[j].session;
            &&& left is Some
            &&& needs_no_less(left->0, right->0)
            &&& needs_no_less(right->0, left->0) ==> exists|a: int, b: int|
                0 <= a < b < s.len() && #[trigger] s[a] == left->0 && #[trigger] s[b] == right->0
        }),
{
    lemma_free_keys_by_urgency(s, pins, slot_count, i, j);
    lemma_free_before(pins, 0, i);
    lemma_free_before(pins, i, j);
    let q = queue(s, pins, slot_count);
    let x = allocation(s, pins, slot_count)[i].session->0;
    let y = allocation(s, pins, slot_count)[j].session->0;
    lemma_rank_is_need(x, y);
    if needs_no_less(y, x) {
        lemma_rank_is_need(y, x);
        let key = |v: ScoredView| session_rank(v);
        let c = competing(s, pins, slot_count, s.len() as int);
        let ranks = c.map_values(key);
        let p = ordering::order_of(ranks);
        ordering::lemma_order_of(ranks);
        let (u, v) = (free_before(pins, i), free_before(pins, j));
        assert(q[u] == c[p[u]] && q[v] == c[p[v]]);
        assert(ordering::precedes(ranks, p[u], p[v]));
        assert(ranks[p[u]] == session_rank(x) && ranks[p[v]] == session_rank(y));
        assert(p[u] < p[v]);
        let (a, b) = lemma_competing_in_order(
            s,
            pins,
            slot_count,
            s.len() as int,
            p[u],
            p[v],
        );
        assert(s[a] == x && s[b] == y);
    }
}

/// The competing sessions come in the order in which they are listed.
proof fn lemma_competing_in_order(
    s: Seq<ScoredView>,
    pins: Map<usize, Seq<char>>,
    slot_count: int,
    n: int,
    u: int,
    v: int,
) -> (r: (int, int))
    requires
        0 <= n <= s.len(),
        0 <= u < v < competing(s, pins, slot_count, n).len(),
    ensures
        0 <= r.0 < r.1 < n,
        s[r.0] == competing(s, pins, slot_count, n)[u],
        s[r.1] == competing(s, pins, slot_count, n)[v],
    decreases n,
{
    let c = competing(s, pins, slot_count, n - 1);
    if v < c.len() {
        lemma_competing_in_order(s, pins, slot_count, n - 1, u, v)
    } else {
        lemma_competing(s, pins, slot_count, n - 1);
        let k = choose|k: int|
            0 <= k < n - 1 && competes(s, pins, slot_count, k) && s[k] == c[u];
        (k, n - 1)
    }
}

/// Session `k` is the last one listed under its id.
pub open spec fn last_of_its_id(s: Seq<ScoredView>, k: int) -> bool {
    0 <= k < s.len() && forall|j: int|
        k < j < s.len() ==> (#[trigger] s[j]).snapshot.session_id != s[k].snapshot.session_id
}

/// A key is marked as pinned exactly when a pin names it. It then shows the last
/// session listed under the pinned id, and nothing if there is none.
pub proof fn lemma_pinned_key_shows_latest(
    s: Seq<ScoredView>,
    pins: Map<usize, Seq<char>>,
    slot_count: int,
    i: int,
    k: int,
)
    requires
        0 <= i < slot_count <= usize::MAX,
    ensures
        allocation(s, pins, slot_count)[i].pinned <==> pins.contains_key(i as usize),
        pins.contains_key(i as usize) && last_of_its_id(s, k) && s[k].snapshot.session_id
            == pins[i as usize] ==> allocation(s, pins, slot_count)[i].session == Some(s[k]),
        pins.contains_key(i as usize) && (forall|j: int|
            0 <= j < s.len() ==> (#[trigger] s[j]).snapshot.session_id != pins[i as usize])
            ==> allocation(s, pins, slot_count)[i].session is None,
{
    if pins.contains_key(i as usize) {
        lemma_latest_with_id(s, pins[i as usize]);
        if last_of_its_id(s, k) {
            lemma_latest_is_found(s, k);
        }
    }
}

/// A free key shows a listed session in its latest state, and none that some key
/// of the board is pinned to.
pub proof fn lemma_free_key_shows_latest(
    s: Seq<ScoredView>,
    pins: Map<usize, Seq<char>>,
    slot_count: int,
    i: int,
    j: int,
)
    requires
        0 <= i < slot_count <= usize::MAX,
        0 <= j < slot_count,
        !pins.contains_key(i as usize),
        allocation(s, pins, slot_count)[i].session is Some,
    ensures
        ({
            let x = allocation(s, pins, slot_count)[i].session->0;
            &&& exists|k: int| #[trigger] last_of_its_id(s, k) && s[k] == x
            &&& pins.contains_key(j as usize) ==> pins[j as usize] != x.snapshot.session_id
        }),
{
    lemma_queue(s, pins, slot_count);
    lemma_free_before(pins, 0, i);
    let q = queue(s, pins, slot_count);
    let x = q[free_before(pins, i)];
    let k = choose|k: int| 0 <= k < s.len() && competes(s, pins, slot_count, k) && s[k] == x;
    assert(last_of_its_id(s, k));
    if pins.contains_key(j as usize) {
        assert(pinned_at(pins, j));
    }
}

/// A session is left out only for others that need a key no less: if it is
/// nowhere on the board, every free key shows a session, and each of those needs
/// it no less.
pub proof fn lemma_left_out_for_greater_need(
    s: Seq<ScoredView>,
    pins: Map<usize, Seq<char>>,
    slot_count: int,
    k: int,
    i: int,
)
    requires
        last_of_its_id(s, k),
        0 <= i < slot_count <= usize::MAX,
        !pins.contains_key(i as usize),
        forall|j: int|
            0 <= j < slot_count ==> (#[trigger] allocation(s, pins, slot_count)[j]).session
                != Some(s[k]),
    ensures
        allocation(s, pins, slot_count)[i].session matches Some(x) && needs_no_less(x, s[k]),
{
    lemma_queue(s, pins, slot_count);
    let q = queue(s, pins, slot_count);
    if allocation(s, pins, slot_count)[i].session is None {
        let j = lemma_nothing_is_dropped_while_room(s, pins, slot_count, i, k);
        assert(allocation(s, pins, slot_count)[j].session == Some(s[k]));
    } else if competes(s, pins, slot_count, k) {
        assert(q.contains(s[k]));
        let turn = choose|a: int| 0 <= a < q.len() && q[a] == s[k];
        let u = free_before(pins, i);
        lemma_free_before(pins, 0, i);
        if turn <= u {
            lemma_free_before(pins, i, slot_count);
            let j = lemma_turn_has_key(pins, slot_count, turn);
            assert(allocation(s, pins, slot_count)[j].session == Some(s[k]));
        }
        assert(!ordering::above(session_rank(q[turn]), session_rank(q[u])));
        lemma_rank_is_need(q[u], s[k]);
    } else {
        let id = s[k].snapshot.session_id;
        assert(pinned_id(pins, slot_count, id));
        let j = choose|j: int| #![trigger pinned_at(pins, j)]
            0 <= j < slot_count && pinned_at(pins, j) && pins[j as usize] == id;
        lemma_latest_is_found(s, k);
        assert(allocation(s, pins, slot_count)[j].session == Some(s[k]));
    }
}

} // verus!
