//! Picking sessions out of a list: by their ids, and without the excluded ones.
use crate::lists;
use crate::protocol;
use crate::protocol::{SessionSnapshot, SnapshotView};
use crate::text;
use vstd::prelude::*;

verus! {

/// The sessions of `s` whose id is among `ids`.
pub open spec fn with_ids(s: Seq<SnapshotView>, ids: Seq<Seq<char>>) -> Seq<SnapshotView> {
    s.filter(|x: SnapshotView| ids.contains(x.session_id))
}

/// The sessions of `snaps` whose id is among `ids`, in order.
pub fn keep_ids(snaps: &Vec<SessionSnapshot>, ids: &[String]) -> (r: Vec<SessionSnapshot>)
    ensures
        protocol::snapshots(r@) == with_ids(protocol::snapshots(snaps@), text::texts(ids@)),
{
    let ghost views = protocol::snapshots(snaps@);
    let ghost keep = |x: SnapshotView| text::texts(ids@).contains(x.session_id);
    let mut out: Vec<SessionSnapshot> = Vec::new();
    let mut i: usize = 0;
    proof {
        lists::lemma_filter_none(views, keep);
        assert(protocol::snapshots(out@) =~= Seq::<SnapshotView>::empty());
    }
    while i < snaps.len()
        invariant
            i <= snaps@.len(),
            views == protocol::snapshots(snaps@),
            keep == (|x: SnapshotView| text::texts(ids@).contains(x.session_id)),
            protocol::snapshots(out@) == views.take(i as int).filter(keep),
        decreases snaps@.len() - i,
    {
        proof {
            lists::lemma_filter_next(views, keep, i as int);
        }
        if text::lists_id(ids, snaps[i].session_id.as_str()) {
            let ghost had = out@;
            out.push(snaps[i].clone());
            assert(protocol::snapshots(out@) =~= protocol::snapshots(had).push(views[i as int]));
        }
        i = i + 1;
    }
    assert(views.take(i as int) == views);
    out
}

/// Some of these words stands in the path.
pub open spec fn names_excluded(path: Seq<char>, words: Seq<Seq<char>>) -> bool {
    exists|i: int|
        0 <= i < words.len() && (#[trigger] words[i]).len() > 0 && text::occurs(path, words[i])
}

/// The session is excluded by its id or by its workspace.
pub open spec fn excluded(
    s: SnapshotView,
    ids: Seq<Seq<char>>,
    workspaces: Seq<Seq<char>>,
) -> bool {
    ids.contains(s.session_id) || (s.workspace_path matches Some(p) && names_excluded(
        p,
        workspaces,
    ))
}

/// Whether some of these words stands in the path.
pub fn path_excluded(path: &str, words: &Vec<String>) -> (r: bool)
    ensures
        r == names_excluded(path@, text::texts(words@)),
{
    let ghost w = text::texts(words@);
    let mut i: usize = 0;
    while i < words.len()
        invariant
            i <= words@.len(),
            w == text::texts(words@),
            forall|j: int|
                0 <= j < i ==> !((#[trigger] w[j]).len() > 0 && text::occurs(path@, w[j])),
        decreases words@.len() - i,
    {
        assert(w[i as int] == words@[i as int]@);
        if !words[i].as_str().is_empty() && text::contains(path, words[i].as_str()) {
            return true;
        }
        i = i + 1;
    }
    false
}

/// Whether a session is excluded by its id or by its workspace.
pub fn session_excluded(snap: &SessionSnapshot, ids: &Vec<String>, workspaces: &Vec<String>) -> (r:
    bool)
    ensures
        r == excluded(snap@, text::texts(ids@), text::texts(workspaces@)),
{
    if text::lists_id(ids.as_slice(), snap.session_id.as_str()) {
        return true;
    }
    match &snap.workspace_path {
        Some(p) => path_excluded(p.as_str(), workspaces),
        None => false,
    }
}

/// A session is left out exactly if its id is listed or its folder holds one of the
/// listed texts that are not empty, and a session without a folder by its id alone.
pub proof fn lemma_exclusion_by_id_or_folder(
    s: SnapshotView,
    ids: Seq<Seq<char>>,
    workspaces: Seq<Seq<char>>,
    j: int,
    before: Seq<char>,
    after: Seq<char>,
)
    requires
        0 <= j < workspaces.len(),
    ensures
        ids.contains(s.session_id) ==> excluded(s, ids, workspaces),
        s.workspace_path == Some(before + workspaces[j] + after) && workspaces[j].len() > 0
            ==> excluded(s, ids, workspaces),
        s.workspace_path is None ==> excluded(s, ids, workspaces) == ids.contains(s.session_id),
        workspaces.len() == 1 && workspaces[j].len() == 0 ==> excluded(s, ids, workspaces)
            == ids.contains(s.session_id),
{
    text::lemma_part_is_found(before, workspaces[j], after);
}

/// A session that is left out though its id is not listed is in a folder that holds
/// a listed text.
pub proof fn lemma_exclusion_has_a_reason(
    s: SnapshotView,
    ids: Seq<Seq<char>>,
    workspaces: Seq<Seq<char>>,
) -> (r: (int, Seq<char>, Seq<char>))
    requires
        excluded(s, ids, workspaces),
        !ids.contains(s.session_id),
    ensures
        0 <= r.0 < workspaces.len(),
        workspaces[r.0].len() > 0,
        s.workspace_path == Some(r.1 + workspaces[r.0] + r.2),
{
    let p = s.workspace_path->0;
    let i = choose|i: int|
        0 <= i < workspaces.len() && (#[trigger] workspaces[i]).len() > 0 && text::occurs(
            p,
            workspaces[i],
        );
    let (a, b) = text::lemma_found_part_stands_there(p, workspaces[i]);
    (i, a, b)
}

/// Of a list exactly the sessions whose ids are asked for are kept, in their order.
pub proof fn lemma_ids_that_are_kept(s: Seq<SnapshotView>, ids: Seq<Seq<char>>) -> (places: Seq<
    int,
>)
    ensures
        places.len() == with_ids(s, ids).len(),
        forall|a: int|
            0 <= a < places.len() ==> 0 <= #[trigger] places[a] < s.len() && with_ids(s, ids)[a]
                == s[places[a]] && ids.contains(s[places[a]].session_id),
        forall|a: int, b: int|
            0 <= a < b < places.len() ==> #[trigger] places[a] < #[trigger] places[b],
        forall|i: int|
            0 <= i < s.len() && ids.contains((#[trigger] s[i]).session_id) ==> places.contains(i),
{
    lists::lemma_filter_places(s, |x: SnapshotView| ids.contains(x.session_id))
}

} // verus!
