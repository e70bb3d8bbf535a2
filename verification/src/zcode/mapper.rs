//! From a row of ZCode's task table to a session snapshot.
use crate::protocol::{BackendId, DeckStatus, Risk, SessionSnapshot, SnapshotView};
use crate::text;
use vstd::prelude::*;

verus! {

/// One task with what its tool calls say of it.
#[derive(Debug, Clone)]
pub struct ZcodeRow {
    pub task_id: String,
    pub title: Option<String>,
    pub task_status: Option<String>,
    pub workspace_path: Option<String>,
    pub updated_at: u64,
    /// 1 when a tool call waits for approval.
    pub waiting: i64,
    pub detail: Option<String>,
    /// A tool is running or was used moments ago. ZCode sets the status of a
    /// task at the end of a turn and does not take it back when the user goes
    /// on, so this is the only sign of a task that is at work again.
    pub active: bool,
}

/// The content of a `ZcodeRow`.
#[verifier::ext_equal]
pub struct RowView {
    pub task_id: Seq<char>,
    pub title: Option<Seq<char>>,
    pub task_status: Option<Seq<char>>,
    pub workspace_path: Option<Seq<char>>,
    pub updated_at: u64,
    pub waiting: i64,
    pub detail: Option<Seq<char>>,
    pub active: bool,
}

impl View for ZcodeRow {
    type V = RowView;

    open spec fn view(&self) -> RowView {
        RowView {
            task_id: self.task_id@,
            title: text::opt(self.title),
            task_status: text::opt(self.task_status),
            workspace_path: text::opt(self.workspace_path),
            updated_at: self.updated_at,
            waiting: self.waiting,
            detail: text::opt(self.detail),
            active: self.active,
        }
    }
}

/// The status of a task. What a finished turn left behind counts only while
/// nothing is going on.
pub open spec fn task_state(
    task_status: Option<Seq<char>>,
    waiting: bool,
    active: bool,
) -> DeckStatus {
    if task_status == Some("error"@) {
        if active {
            DeckStatus::Working
        } else {
            DeckStatus::Error
        }
    } else if task_status == Some("completed"@) {
        if active {
            DeckStatus::Working
        } else {
            DeckStatus::Done
        }
    } else if task_status == Some("running"@) {
        if waiting {
            DeckStatus::Waiting
        } else {
            DeckStatus::Working
        }
    } else {
        DeckStatus::Idle
    }
}

/// The status of a task.
fn map_status(task_status: &Option<String>, waiting: bool, active: bool) -> (r: DeckStatus)
    ensures
        r == task_state(text::opt(*task_status), waiting, active),
{
    if text::opt_is(task_status, "error") {
        if active {
            DeckStatus::Working
        } else {
            DeckStatus::Error
        }
    } else if text::opt_is(task_status, "completed") {
        if active {
            DeckStatus::Working
        } else {
            DeckStatus::Done
        }
    } else if text::opt_is(task_status, "running") {
        if waiting {
            DeckStatus::Waiting
        } else {
            DeckStatus::Working
        }
    } else {
        DeckStatus::Idle
    }
}

/// Words that mark a risky request.
pub open spec fn risky_words() -> Seq<Seq<char>> {
    seq![
        "shell"@,
        "bash"@,
        "git push"@,
        "git reset"@,
        "rm "@,
        "rm-"@,
        "delete"@,
        "destroy"@,
        "force"@,
        "sudo"@,
        "chmod"@,
        "mv "@,
        "unlink"@,
    ]
}

/// Words that mark a harmless request.
pub open spec fn harmless_words() -> Seq<Seq<char>> {
    seq![
        "userinteraction"@,
        "askuser"@,
        "read"@,
        "grep"@,
        "glob"@,
        "list"@,
        "todo"@,
        "view"@,
        "ls "@,
    ]
}

/// Some of these words stands in the text.
pub open spec fn holds_word(d: Seq<char>, words: Seq<Seq<char>>) -> bool {
    exists|i: int| 0 <= i < words.len() && text::occurs(d, #[trigger] words[i])
}

/// The risk of a request by its lower-case description: a risky word decides
/// before a harmless one.
pub open spec fn request_risk(d: Seq<char>) -> Risk {
    if holds_word(d, risky_words()) {
        Risk::High
    } else if holds_word(d, harmless_words()) {
        Risk::Low
    } else {
        Risk::Medium
    }
}

/// Whether some of these words stands in the text.
fn contains_word(d: &str, words: &Vec<&'static str>) -> (r: bool)
    ensures
        r == holds_word(d@, words@.map_values(|w: &'static str| w@)),
{
    let ghost w = words@.map_values(|w: &'static str| w@);
    let mut i: usize = 0;
    while i < words.len()
        invariant
            i <= words@.len(),
            w == words@.map_values(|w: &'static str| w@),
            forall|j: int| 0 <= j < i ==> !text::occurs(d@, #[trigger] w[j]),
        decreases words@.len() - i,
    {
        assert(w[i as int] == words@[i as int]@);
        if text::contains(d, words[i]) {
            return true;
        }
        i = i + 1;
    }
    false
}

/// The risk of a request by its lower-case description.
pub fn risk_of_lower(d: &str) -> (r: Risk)
    ensures
        r == request_risk(d@),
{
    let risky: Vec<&'static str> = vec![
        "shell", "bash", "git push", "git reset", "rm ", "rm-", "delete", "destroy", "force",
        "sudo", "chmod", "mv ", "unlink",
    ];
    assert(risky@.map_values(|w: &'static str| w@) =~= risky_words());
    if contains_word(d, &risky) {
        return Risk::High;
    }
    let harmless: Vec<&'static str> = vec![
        "userinteraction", "askuser", "read", "grep", "glob", "list", "todo", "view", "ls ",
    ];
    assert(harmless@.map_values(|w: &'static str| w@) =~= harmless_words());
    if contains_word(d, &harmless) {
        return Risk::Low;
    }
    Risk::Medium
}

/// The risk of a request; one without a description is of medium risk.
pub open spec fn risk_of(detail: Option<Seq<char>>) -> Risk {
    match text::filled(detail) {
        Some(d) => request_risk(text::unicode_lower(d)),
        None => Risk::Medium,
    }
}

/// The content of an optional text slice.
pub open spec fn slice_view(detail: Option<&str>) -> Option<Seq<char>> {
    match detail {
        Some(d) => Some(d@),
        None => None,
    }
}

/// The risk of a request by its description, whatever its case.
pub fn infer_risk(detail: Option<&str>) -> (r: Risk)
    ensures
        r == risk_of(slice_view(detail)),
        detail matches Some(d) && d@.len() > 0 && text::all_ascii(d@) ==> r == request_risk(
            text::lowered(detail->0@),
        ),
{
    match detail {
        None => Risk::Medium,
        Some(d) => {
            if d.is_empty() {
                return Risk::Medium;
            }
            risk_of_lower(text::to_lowercase(d).as_str())
        },
    }
}

/// The status of a row.
pub open spec fn row_status(row: RowView) -> DeckStatus {
    task_state(row.task_status, row.waiting == 1, row.active)
}

/// The snapshot of a task, given the risk of the request it waits for.
pub open spec fn snapshot_with(row: RowView, risk: Risk) -> SnapshotView {
    let status = row_status(row);
    SnapshotView {
        backend: BackendId::Zcode,
        session_id: row.task_id,
        title: match text::filled(row.title) {
            Some(t) => t,
            None => "(untitled)"@,
        },
        status,
        risk: if status is Waiting {
            Some(risk)
        } else {
            None
        },
        detail: text::filled(row.detail),
        waiting_since: if status is Waiting {
            Some(row.updated_at)
        } else {
            None
        },
        updated_at: row.updated_at,
        workspace_path: row.workspace_path,
        project_category: None,
        project_label: None,
    }
}

/// The snapshot of a task.
pub open spec fn snapshot_of(row: RowView) -> SnapshotView {
    snapshot_with(row, risk_of(row.detail))
}

/// The snapshot of a task.
pub fn map_zcode_row(row: &ZcodeRow) -> (r: SessionSnapshot)
    ensures
        r@ == snapshot_of(row@),
{
    let status = map_status(&row.task_status, row.waiting == 1, row.active);
    let waits: bool = status == DeckStatus::Waiting;
    let risk = if waits {
        match &row.detail {
            Some(d) => Some(infer_risk(Some(d.as_str()))),
            None => Some(infer_risk(None)),
        }
    } else {
        None
    };
    let title = match text::clone_filled(&row.title) {
        Some(t) => t,
        None => "(untitled)".to_string(),
    };
    let waiting_since: Option<u64> = if waits {
        Some(row.updated_at)
    } else {
        None
    };
    SessionSnapshot {
        backend: BackendId::Zcode,
        session_id: row.task_id.clone(),
        title,
        status,
        risk,
        detail: text::clone_filled(&row.detail),
        waiting_since,
        updated_at: row.updated_at,
        workspace_path: text::clone_opt(&row.workspace_path),
        project_category: None,
        project_label: None,
    }
}

/// A task has a start of waiting, and a risk, exactly while it waits; it waits
/// since its last update.
pub proof fn lemma_waiting_has_start_and_risk(row: RowView, risk: Risk)
    ensures
        snapshot_with(row, risk).waiting_since is Some <==> row_status(row) is Waiting,
        snapshot_with(row, risk).risk is Some <==> row_status(row) is Waiting,
        snapshot_with(row, risk).waiting_since matches Some(t) ==> t == row.updated_at,
{
}

/// A task that is at work is never shown as finished or failed.
pub proof fn lemma_active_task_is_not_over(task_status: Option<Seq<char>>, waiting: bool)
    ensures
        !(task_state(task_status, waiting, true) is Done),
        !(task_state(task_status, waiting, true) is Error),
{
}

/// A snapshot bears the id, the folder and the last update of its row as they
/// are, its title, or a stand-in if it has none, and its description; none of
/// these depends on any other column.
pub proof fn lemma_snapshot_names_its_task(row: RowView)
    ensures
        ({
            let x = snapshot_of(row);
            &&& x.backend is Zcode
            &&& x.session_id == row.task_id
            &&& x.updated_at == row.updated_at
            &&& x.workspace_path == row.workspace_path
            &&& (row.title matches Some(t) && t.len() > 0) ==> x.title == row.title->0
            &&& !(row.title matches Some(t) && t.len() > 0) ==> x.title == "(untitled)"@
            &&& (row.detail matches Some(d) && d.len() > 0) ==> x.detail == row.detail
            &&& !(row.detail matches Some(d) && d.len() > 0) ==> x.detail is None
            &&& x.project_category is None
            &&& x.project_label is None
        }),
{
}

/// Two rows that differ in nothing but their titles differ in nothing else on
/// the board, and so do two that differ in nothing but their folders.
pub proof fn lemma_title_and_folder_stay_apart(
    row: RowView,
    title: Option<Seq<char>>,
    folder: Option<Seq<char>>,
)
    ensures
        snapshot_of(RowView { title, ..row }) == (SnapshotView {
            title: snapshot_of(RowView { title, ..row }).title,
            ..snapshot_of(row)
        }),
        snapshot_of(RowView { workspace_path: folder, ..row }) == (SnapshotView {
            workspace_path: folder,
            ..snapshot_of(row)
        }),
{
}

/// A running task waits exactly when a call of it waits for approval, and works
/// otherwise, active or not.
pub proof fn lemma_running_task_waits_or_works(row: RowView)
    requires
        row.task_status == Some("running"@),
    ensures
        row.waiting == 1 ==> snapshot_of(row).status is Waiting,
        row.waiting != 1 ==> snapshot_of(row).status is Working,
{
    reveal_strlit("running");
    reveal_strlit("error");
    reveal_strlit("completed");
    assert("running"@ != "error"@ && "running"@ != "completed"@) by {
        assert("running"@.len() == 7 && "error"@.len() == 5 && "completed"@.len() == 9);
    }
}

/// A task whose turn is over is done, or has failed, unless it is active again:
/// then it works. A call that waited before does not count.
pub proof fn lemma_ended_task_is_done_or_failed(row: RowView)
    requires
        row.task_status == Some("completed"@) || row.task_status == Some("error"@),
    ensures
        row.active ==> snapshot_of(row).status is Working,
        !row.active && row.task_status == Some("completed"@) ==> snapshot_of(row).status is Done,
        !row.active && row.task_status == Some("error"@) ==> snapshot_of(row).status is Error,
{
    reveal_strlit("error");
    reveal_strlit("completed");
    assert("completed"@ != "error"@) by {
        assert("error"@.len() == 5 && "completed"@.len() == 9);
    }
}

/// A task of any other status, or of none, is idle.
pub proof fn lemma_other_tasks_are_idle(row: RowView)
    requires
        row.task_status != Some("running"@),
        row.task_status != Some("completed"@),
        row.task_status != Some("error"@),
    ensures
        snapshot_of(row).status is Idle,
{
}

/// A task bears the risk of its request, and waits since its last update, when
/// it runs and waits for approval, and neither otherwise.
pub proof fn lemma_only_a_waiting_task_is_risky(row: RowView)
    ensures
        ({
            let x = snapshot_of(row);
            let waits = row.task_status == Some("running"@) && row.waiting == 1;
            &&& waits ==> x.risk == Some(risk_of(row.detail)) && x.waiting_since == Some(
                row.updated_at,
            )
            &&& !waits ==> x.risk is None && x.waiting_since is None
        }),
{
    reveal_strlit("running");
    reveal_strlit("error");
    reveal_strlit("completed");
    assert("running"@.len() == 7 && "error"@.len() == 5 && "completed"@.len() == 9);
}

/// The word stands in the text at position `i`.
pub open spec fn word_at(d: Seq<char>, word: Seq<char>, i: int) -> bool {
    0 <= i <= d.len() - word.len() && forall|k: int|
        0 <= k < word.len() ==> #[trigger] d[i + k] == word[k]
}

/// The word tells of a request that may do harm.
pub open spec fn alarming(word: Seq<char>) -> bool {
    ||| word == "shell"@ || word == "bash"@ || word == "sudo"@ || word == "chmod"@
    ||| word == "git push"@ || word == "git reset"@ || word == "force"@
    ||| word == "rm "@ || word == "rm-"@ || word == "mv "@
    ||| word == "delete"@ || word == "destroy"@ || word == "unlink"@
}

/// The word tells of a request that only asks or looks.
pub open spec fn soothing(word: Seq<char>) -> bool {
    ||| word == "userinteraction"@ || word == "askuser"@
    ||| word == "read"@ || word == "view"@ || word == "list"@ || word == "ls "@
    ||| word == "grep"@ || word == "glob"@ || word == "todo"@
}

proof fn lemma_word_occurs(d: Seq<char>, word: Seq<char>, i: int)
    ensures
        word_at(d, word, i) <==> text::occurs_at(d, word, i),
{
    if 0 <= i <= d.len() - word.len() {
        let part = d.subrange(i, i + word.len());
        if word_at(d, word, i) {
            assert forall|k: int| 0 <= k < word.len() implies part[k] == word[k] by {
                assert(d[i + k] == word[k]);
            }
            assert(part =~= word);
        }
        if part == word {
            assert forall|k: int| 0 <= k < word.len() implies #[trigger] d[i + k] == word[k] by {
                assert(part[k] == word[k]);
            }
        }
    }
}

proof fn lemma_words(d: Seq<char>)
    ensures
        holds_word(d, risky_words()) <==> exists|w: Seq<char>, i: int|
            alarming(w) && #[trigger] word_at(d, w, i),
        holds_word(d, harmless_words()) <==> exists|w: Seq<char>, i: int|
            soothing(w) && #[trigger] word_at(d, w, i),
{
    let r = risky_words();
    let h = harmless_words();
    assert(r[0] == "shell"@ && r[1] == "bash"@ && r[2] == "git push"@ && r[3] == "git reset"@);
    assert(r[4] == "rm "@ && r[5] == "rm-"@ && r[6] == "delete"@ && r[7] == "destroy"@);
    assert(r[8] == "force"@ && r[9] == "sudo"@ && r[10] == "chmod"@ && r[11] == "mv "@);
    assert(r[12] == "unlink"@);
    assert(h[0] == "userinteraction"@ && h[1] == "askuser"@ && h[2] == "read"@);
    assert(h[3] == "grep"@ && h[4] == "glob"@ && h[5] == "list"@ && h[6] == "todo"@);
    assert(h[7] == "view"@ && h[8] == "ls "@);
    if holds_word(d, r) {
        let k = choose|k: int| 0 <= k < r.len() && text::occurs(d, #[trigger] r[k]);
        let i = choose|i: int| text::occurs_at(d, r[k], i);
        lemma_word_occurs(d, r[k], i);
        assert(alarming(r[k]));
    }
    if holds_word(d, h) {
        let k = choose|k: int| 0 <= k < h.len() && text::occurs(d, #[trigger] h[k]);
        let i = choose|i: int| text::occurs_at(d, h[k], i);
        lemma_word_occurs(d, h[k], i);
        assert(soothing(h[k]));
    }
    if exists|w: Seq<char>, i: int| alarming(w) && #[trigger] word_at(d, w, i) {
        let (w, i) = choose|w: Seq<char>, i: int| alarming(w) && #[trigger] word_at(d, w, i);
        lemma_word_occurs(d, w, i);
        assert(text::occurs(d, w));
        assert(exists|k: int| 0 <= k < r.len() && #[trigger] r[k] == w);
    }
    if exists|w: Seq<char>, i: int| soothing(w) && #[trigger] word_at(d, w, i) {
        let (w, i) = choose|w: Seq<char>, i: int| soothing(w) && #[trigger] word_at(d, w, i);
        lemma_word_occurs(d, w, i);
        assert(text::occurs(d, w));
        assert(exists|k: int| 0 <= k < h.len() && #[trigger] h[k] == w);
    }
}

/// A request whose lower-case description holds an alarming word anywhere is of
/// high risk, whatever else it holds.
pub proof fn lemma_alarming_word_decides(d: Seq<char>, word: Seq<char>, i: int)
    requires
        alarming(word),
        word_at(d, word, i),
    ensures
        request_risk(d) is High,
{
    lemma_words(d);
}

/// A request whose lower-case description holds a soothing word, and no alarming
/// one, is of low risk.
pub proof fn lemma_soothing_word_calms(d: Seq<char>, word: Seq<char>, i: int)
    requires
        soothing(word),
        word_at(d, word, i),
        forall|w: Seq<char>, k: int| alarming(w) ==> !#[trigger] word_at(d, w, k),
    ensures
        request_risk(d) is Low,
{
    lemma_words(d);
}

/// A request whose lower-case description holds neither, and one without a
/// description, is of medium risk.
pub proof fn lemma_other_requests_are_between(d: Seq<char>)
    requires
        forall|w: Seq<char>, k: int|
            alarming(w) || soothing(w) ==> !#[trigger] word_at(d, w, k),
    ensures
        request_risk(d) is Medium,
        risk_of(None) is Medium,
        risk_of(Some(Seq::empty())) is Medium,
{
    lemma_words(d);
}

/// The risk of a request is that of its description in lower case.
pub proof fn lemma_risk_ignores_case(d: Seq<char>, e: Seq<char>)
    requires
        d.len() > 0,
        e.len() > 0,
        text::unicode_lower(d) == text::unicode_lower(e),
    ensures
        risk_of(Some(d)) == risk_of(Some(e)),
        risk_of(Some(d)) == request_risk(text::unicode_lower(d)),
{
}

} // verus!
