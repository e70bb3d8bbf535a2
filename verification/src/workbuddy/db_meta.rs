//! What WorkBuddy's database adds to a session: the title the user gave it, its
//! folder, whether it is archived, and how its workspace is grouped.
//!
//! Renames in WorkBuddy's interface reach the database only, never the event
//! log, so the database wins.
use crate::json;
use crate::protocol::ProjectCategory;
use crate::text;
use crate::text_map::TextMap;
use vstd::prelude::*;
use vstd::utf8;

verus! {

/// Live sessions with all columns.
pub const SESSIONS_SQL: &'static str = "SELECT id, title, custom_title, cwd,
        COALESCE(is_playground, 0), COALESCE(is_background_automation, 0), status, updated_at
    FROM sessions WHERE deleted_at IS NULL";

/// Live sessions of a database without the automation flag.
pub const SESSIONS_NO_FLAG_SQL: &'static str =
    "SELECT id, title, custom_title, cwd, COALESCE(is_playground, 0), status, updated_at
    FROM sessions WHERE deleted_at IS NULL";

/// Live sessions of the oldest databases.
pub const SESSIONS_OLDEST_SQL: &'static str =
    "SELECT id, title, custom_title, cwd, COALESCE(is_playground, 0)
    FROM sessions WHERE deleted_at IS NULL";

/// Sessions that were deleted.
pub const DELETED_SQL: &'static str = "SELECT id FROM sessions WHERE deleted_at IS NOT NULL";

/// Automations that were not deleted.
pub const AUTOMATIONS_SQL: &'static str =
    "SELECT name, cwds FROM automations WHERE deleted_at IS NULL";

/// Automations of a database that does not mark deletions.
pub const AUTOMATIONS_OLDEST_SQL: &'static str = "SELECT name, cwds FROM automations";

/// What the database holds of a session.
#[derive(Debug, Clone)]
pub struct SessionMeta {
    /// Title generated by the model.
    pub title: Option<String>,
    /// Title given by the user; wins over everything.
    pub custom_title: Option<String>,
    /// Workspace folder.
    pub cwd: Option<String>,
    /// Task without a project folder of its own.
    pub is_playground: bool,
    /// Scheduled or background run.
    pub is_background_automation: bool,
    /// State of the session; `archived` ones are hidden.
    pub status: Option<String>,
    /// Last update, by which WorkBuddy orders its lists.
    pub updated_at: Option<u64>,
}

/// The content of a `SessionMeta`.
#[verifier::ext_equal]
pub struct MetaView {
    pub title: Option<Seq<char>>,
    pub custom_title: Option<Seq<char>>,
    pub cwd: Option<Seq<char>>,
    pub is_playground: bool,
    pub is_background_automation: bool,
    pub status: Option<Seq<char>>,
    pub updated_at: Option<u64>,
}

impl View for SessionMeta {
    type V = MetaView;

    open spec fn view(&self) -> MetaView {
        MetaView {
            title: text::opt(self.title),
            custom_title: text::opt(self.custom_title),
            cwd: text::opt(self.cwd),
            is_playground: self.is_playground,
            is_background_automation: self.is_background_automation,
            status: text::opt(self.status),
            updated_at: self.updated_at,
        }
    }
}

impl Default for SessionMeta {
    fn default() -> (r: SessionMeta)
        ensures
            r@ == (MetaView {
                title: None,
                custom_title: None,
                cwd: None,
                is_playground: false,
                is_background_automation: false,
                status: None,
                updated_at: None,
            }),
    {
        SessionMeta {
            title: None,
            custom_title: None,
            cwd: None,
            is_playground: false,
            is_background_automation: false,
            status: None,
            updated_at: None,
        }
    }
}

/// One row of the sessions table as it is stored.
#[derive(Debug)]
pub struct SessionRow {
    pub id: String,
    pub title: Option<String>,
    pub custom_title: Option<String>,
    pub cwd: Option<String>,
    pub is_playground: i64,
    pub is_background_automation: i64,
    pub status: Option<String>,
    pub updated_at: Option<i64>,
}

/// A stored time; none before the epoch.
pub open spec fn stored_time(t: Option<i64>) -> Option<u64> {
    match t {
        Some(v) => Some(
            if v > 0 {
                v as u64
            } else {
                0
            },
        ),
        None => None,
    }
}

/// What a row says: empty texts count as absent, any number but 0 as true.
pub open spec fn meta_of(row: SessionRow) -> MetaView {
    MetaView {
        title: text::filled(text::opt(row.title)),
        custom_title: text::filled(text::opt(row.custom_title)),
        cwd: text::filled(text::opt(row.cwd)),
        is_playground: row.is_playground != 0,
        is_background_automation: row.is_background_automation != 0,
        status: text::filled(text::opt(row.status)),
        updated_at: stored_time(row.updated_at),
    }
}

/// What a row says.
pub fn row_meta(row: &SessionRow) -> (r: SessionMeta)
    ensures
        r@ == meta_of(*row),
{
    let updated_at: Option<u64> = match row.updated_at {
        Some(v) => Some(
            if v > 0 {
                v as u64
            } else {
                0
            },
        ),
        None => None,
    };
    SessionMeta {
        title: text::clone_filled(&row.title),
        custom_title: text::clone_filled(&row.custom_title),
        cwd: text::clone_filled(&row.cwd),
        is_playground: row.is_playground != 0,
        is_background_automation: row.is_background_automation != 0,
        status: text::clone_filled(&row.status),
        updated_at,
    }
}

/// What the rows say of each session; the last row of an id counts.
pub open spec fn meta_map(rows: Seq<SessionRow>) -> Map<Seq<char>, MetaView>
    decreases rows.len(),
{
    if rows.len() == 0 {
        Map::empty()
    } else {
        meta_map(rows.drop_last()).insert(rows.last().id@, meta_of(rows.last()))
    }
}

/// The contents of a table of session data.
pub open spec fn meta_views(m: Map<Seq<char>, SessionMeta>) -> Map<Seq<char>, MetaView> {
    m.map_values(|x: SessionMeta| x@)
}

/// What the rows say of each session; the last row of an id counts.
pub fn index_meta(rows: &Vec<SessionRow>) -> (r: TextMap<SessionMeta>)
    ensures
        meta_views(r@) == meta_map(rows@),
{
    let mut out: TextMap<SessionMeta> = TextMap::new();
    let mut i: usize = 0;
    assert(meta_views(out@) =~= meta_map(rows@.take(0)));
    while i < rows.len()
        invariant
            i <= rows@.len(),
            meta_views(out@) == meta_map(rows@.take(i as int)),
        decreases rows@.len() - i,
    {
        let ghost had = out@;
        let m = row_meta(&rows[i]);
        out.insert(rows[i].id.clone(), m);
        assert(rows@.take(i + 1).drop_last() == rows@.take(i as int));
        assert(meta_views(out@) =~= meta_views(had).insert(
            rows@[i as int].id@,
            meta_of(rows@[i as int]),
        ));
        i = i + 1;
    }
    assert(rows@.take(i as int) == rows@);
    out
}

/// The session is archived, in whatever case that is written.
pub open spec fn archived(m: MetaView) -> bool {
    m.status matches Some(s) && text::lowered(s) == text::lowered("archived"@)
}

/// The queries to try next, one after the other until one can be run, on a
/// database where `SESSIONS_SQL` gave these rows: with none found it may be an
/// older one.
pub fn older_session_queries(found: &Vec<SessionRow>) -> (r: Vec<&'static str>)
    ensures
        r@ == (if found@.len() == 0 {
            seq![SESSIONS_NO_FLAG_SQL, SESSIONS_OLDEST_SQL]
        } else {
            Seq::<&'static str>::empty()
        }),
{
    let mut r: Vec<&'static str> = Vec::new();
    if found.len() == 0 {
        r.push(SESSIONS_NO_FLAG_SQL);
        r.push(SESSIONS_OLDEST_SQL);
    }
    r
}

/// Whether the session is archived, in whatever case that is written.
pub fn is_archived(meta: &SessionMeta) -> (r: bool)
    ensures
        r == archived(meta@),
{
    match &meta.status {
        Some(s) => text::eq_ignore_ascii_case(s.as_str(), "archived"),
        None => false,
    }
}

/// The title to show: the user's before the generated one.
pub open spec fn chosen_title(m: MetaView) -> Option<Seq<char>> {
    if text::filled(m.custom_title) is Some {
        text::filled(m.custom_title)
    } else {
        text::filled(m.title)
    }
}

/// The title to show: the user's before the generated one.
pub fn preferred_title(meta: &SessionMeta) -> (r: Option<String>)
    ensures
        text::opt(r) == chosen_title(meta@),
{
    let custom = text::clone_filled(&meta.custom_title);
    if custom.is_some() {
        custom
    } else {
        text::clone_filled(&meta.title)
    }
}

/// The strings of a JSON array that holds nothing else; None when the text is none.
pub open spec fn text_list(raw: Seq<char>) -> Option<Seq<Seq<char>>> {
    match json::parsed(utf8::encode_utf8(raw)) {
        Some(v) => v.as_texts(),
        None => None,
    }
}

/// The strings of a JSON array that holds nothing else.
fn parse_text_list(raw: &str) -> (r: Option<Vec<String>>)
    ensures
        (match r {
            Some(v) => Some(v@.map_values(|x: String| x@)),
            None => None,
        }) == text_list(raw@),
{
    match json::parse(raw.as_bytes()) {
        Some(v) => v.as_strings(),
        None => None,
    }
}

/// `p` with slashes only.
pub open spec fn slashed(p: Seq<char>) -> Seq<char> {
    p.map_values(
        |c: char|
            if c == '\\' {
                '/'
            } else {
                c
            },
    )
}

/// `p` without slashes at its end, as long as something is left.
pub open spec fn unterminated(p: Seq<char>) -> Seq<char>
    decreases p.len(),
{
    if p.len() > 1 && p.last() == '/' {
        unterminated(p.drop_last())
    } else {
        p
    }
}

/// A path in its usual form: slashes only, and none at the end.
pub open spec fn normalized(p: Seq<char>) -> Seq<char> {
    unterminated(slashed(p))
}

/// A path in its usual form: slashes only, and none at the end.
pub fn normalize_path(p: &str) -> (r: String)
    ensures
        r@ == normalized(p@),
{
    let mut v: Vec<char> = Vec::new();
    for c in it: p.chars()
        invariant
            it.seq() == p@,
            v@ == slashed(p@.take(it.index() as int)),
    {
        let d: char = if c == '\\' {
            '/'
        } else {
            c
        };
        v.push(d);
        assert(slashed(p@.take(it.index() as int + 1)) =~= slashed(p@.take(it.index() as int)).push(
            d,
        ));
    }
    assert(p@.take(p@.len() as int) == p@);
    let mut n: usize = v.len();
    assert(v@.take(n as int) == v@);
    while n > 1 && v[n - 1] == '/'
        invariant
            n <= v@.len(),
            unterminated(v@) == unterminated(v@.take(n as int)),
        decreases n,
    {
        assert(v@.take(n as int).drop_last() == v@.take(n - 1));
        n = n - 1;
    }
    assert(v@.subrange(0, n as int) == v@.take(n as int));
    text::text_of(&v, 0, n)
}

/// Bringing a path into its usual form twice changes nothing more.
pub proof fn lemma_normalized_is_final(p: Seq<char>)
    ensures
        normalized(normalized(p)) == normalized(p),
{
    lemma_unterminated(slashed(p));
    let q = normalized(p);
    assert forall|i: int| 0 <= i < q.len() implies #[trigger] q[i] != '\\' by {
        assert(q[i] == slashed(p)[i]);
    }
    assert(slashed(q) =~= q);
}

proof fn lemma_unterminated(p: Seq<char>)
    ensures
        unterminated(p).len() <= p.len(),
        forall|i: int| 0 <= i < unterminated(p).len() ==> #[trigger] unterminated(p)[i] == p[i],
        unterminated(unterminated(p)) == unterminated(p),
    decreases p.len(),
{
    if p.len() > 1 && p.last() == '/' {
        lemma_unterminated(p.drop_last());
    }
}

/// The names between the slashes of a path.
pub open spec fn parts(s: Seq<char>) -> Seq<Seq<char>>
    decreases s.len(),
{
    if s.len() == 0 {
        Seq::empty()
    } else {
        let p = parts(s.drop_last());
        let c = s.last();
        if c == '/' {
            p
        } else if s.len() >= 2 && s[s.len() - 2] != '/' {
            p.drop_last().push(p.last().push(c))
        } else {
            p.push(seq![c])
        }
    }
}

/// The contents of a list of names.
pub open spec fn names(v: Seq<String>) -> Seq<Seq<char>> {
    v.map_values(|x: String| x@)
}

/// A path that does not end in a slash has a name at its end.
proof fn lemma_parts(s: Seq<char>)
    ensures
        s.len() > 0 && s.last() != '/' ==> parts(s).len() > 0,
    decreases s.len(),
{
    if s.len() > 1 {
        lemma_parts(s.drop_last());
    }
}

/// The names between the slashes of a path.
pub fn path_parts(path: &str) -> (r: Vec<String>)
    ensures
        names(r@) == parts(path@),
{
    let ghost s = path@;
    let mut out: Vec<String> = Vec::new();
    let mut open: bool = false;
    assert(names(out@) =~= parts(s.take(0)));
    for c in it: path.chars()
        invariant
            s == path@,
            it.seq() == s,
            names(out@) == parts(s.take(it.index() as int)),
            open == (it.index() > 0 && s[it.index() - 1] != '/'),
    {
        let ghost k = it.index() as int;
        let ghost had = out@;
        assert(s.take(k + 1).drop_last() == s.take(k));
        assert(s.take(k + 1).last() == c);
        proof {
            if open {
                lemma_parts(s.take(k));
                assert(s.take(k).last() == s[k - 1]);
                assert(s.take(k + 1)[k - 1] == s[k - 1]);
            }
        }
        if c == '/' {
            open = false;
        } else {
            let mut cur = if open {
                assert(names(had).len() > 0);
                match out.pop() {
                    Some(x) => x,
                    None => String::new(),
                }
            } else {
                String::new()
            };
            cur.push(c);
            out.push(cur);
            open = true;
            proof {
                if had.len() > 0 && k > 0 && s[k - 1] != '/' {
                    assert(names(out@) =~= names(had).drop_last().push(names(had).last().push(c)));
                } else {
                    assert(names(out@) =~= names(had).push(seq![c]));
                }
            }
        }
    }
    assert(s.take(s.len() as int) == s);
    out
}

/// The last name of a path; the path itself when it has none.
pub open spec fn leaf(path: Seq<char>) -> Seq<char> {
    if parts(path).len() == 0 {
        path
    } else {
        parts(path).last()
    }
}

/// The last name of a path; the path itself when it has none.
fn path_leaf(path: &str) -> (r: String)
    ensures
        r@ == leaf(path@),
{
    let p = path_parts(path);
    assert(names(p@).len() == p@.len());
    if p.len() == 0 {
        path.to_string()
    } else {
        p[p.len() - 1].clone()
    }
}

/// The folder above the last name of a path is WorkBuddy's.
pub open spec fn under_workbuddy(path: Seq<char>) -> bool {
    let p = parts(path);
    p.len() >= 2 && text::lowered(p[p.len() - 2]) == text::lowered("WorkBuddy"@)
}

/// Whether the folder above the last name of a path is WorkBuddy's.
fn is_under_workbuddy_home(path: &str) -> (r: bool)
    ensures
        r == under_workbuddy(path@),
{
    let p = path_parts(path);
    assert(names(p@).len() == p@.len());
    if p.len() < 2 {
        return false;
    }
    assert(names(p@)[p@.len() - 2] == p@[p@.len() - 2]@);
    text::eq_ignore_ascii_case(p[p.len() - 2].as_str(), "WorkBuddy")
}

/// The workspace is Claw, WorkBuddy's built-in assistant.
pub open spec fn claw(cwd: Option<Seq<char>>) -> bool {
    cwd matches Some(c) && under_workbuddy(normalized(c)) && text::lowered(
        parts(normalized(c)).last(),
    ) == text::lowered("Claw"@)
}

/// Whether the workspace is Claw, WorkBuddy's built-in assistant. It has an
/// entry of its own in WorkBuddy and is kept out of the lists.
pub fn is_claw_workspace(cwd: Option<&str>) -> (r: bool)
    ensures
        r == claw(
            match cwd {
                Some(c) => Some(c@),
                None => None,
            },
        ),
{
    match cwd {
        None => false,
        Some(c) => {
            let n = normalize_path(c);
            let p = path_parts(n.as_str());
            assert(names(p@).len() == p@.len());
            if p.len() < 2 {
                return false;
            }
            assert(names(p@)[p@.len() - 1] == p@[p@.len() - 1]@);
            text::eq_ignore_ascii_case(p[p.len() - 1].as_str(), "Claw") && is_under_workbuddy_home(
                n.as_str(),
            )
        },
    }
}

/// A decimal digit.
pub open spec fn is_digit(c: char) -> bool {
    '0' <= c && c <= '9'
}

/// The name of a task folder: a time as `2026-07-23-16-37-26` or `20260723163726`.
pub open spec fn task_folder(leaf: Seq<char>) -> bool {
    ||| leaf.len() == 19 && leaf[4] == '-' && leaf[7] == '-' && leaf[10] == '-' && forall|i: int|
        0 <= i < leaf.len() ==> is_digit(#[trigger] leaf[i]) || leaf[i] == '-'
    ||| leaf.len() == 14 && forall|i: int| 0 <= i < leaf.len() ==> is_digit(#[trigger] leaf[i])
}

/// Whether a name is that of a task folder.
fn is_task_timestamp_folder(leaf: &str) -> (r: bool)
    ensures
        r == task_folder(leaf@),
{
    let v = text::chars_of(leaf);
    let dashed: bool = v.len() == 19 && v[4] == '-' && v[7] == '-' && v[10] == '-';
    if !dashed && v.len() != 14 {
        return false;
    }
    let mut i: usize = 0;
    while i < v.len()
        invariant
            i <= v@.len(),
            v@ == leaf@,
            dashed == (v@.len() == 19 && v@[4] == '-' && v@[7] == '-' && v@[10] == '-'),
            dashed || v@.len() == 14,
            forall|j: int| 0 <= j < i ==> is_digit(#[trigger] v@[j]) || (dashed && v@[j] == '-'),
        decreases v@.len() - i,
    {
        let c: char = v[i];
        let digit: bool = '0' <= c && c <= '9';
        if !(digit || (dashed && c == '-')) {
            assert(!is_digit(leaf@[i as int]));
            return false;
        }
        i = i + 1;
    }
    true
}

/// `m` with `name` under each of these folders.
pub open spec fn under_folders(
    m: Map<Seq<char>, Seq<char>>,
    name: Seq<char>,
    folders: Seq<Seq<char>>,
) -> Map<Seq<char>, Seq<char>>
    decreases folders.len(),
{
    if folders.len() == 0 {
        m
    } else {
        let t = under_folders(m, name, folders.drop_last());
        if folders.last().len() == 0 {
            t
        } else {
            t.insert(normalized(folders.last()), name)
        }
    }
}

/// The name of the automation of each folder; automations without a name, or
/// without a readable list of folders, are left out.
pub open spec fn folder_names(rows: Seq<(Seq<char>, Option<Seq<Seq<char>>>)>) -> Map<
    Seq<char>,
    Seq<char>,
>
    decreases rows.len(),
{
    if rows.len() == 0 {
        Map::empty()
    } else {
        let m = folder_names(rows.drop_last());
        let (name, folders) = rows.last();
        match folders {
            Some(f) => if name.len() == 0 {
                m
            } else {
                under_folders(m, name, f)
            },
            None => m,
        }
    }
}

/// The contents of a table of names.
pub open spec fn name_views(m: Map<Seq<char>, String>) -> Map<Seq<char>, Seq<char>> {
    m.map_values(|x: String| x@)
}

/// An automation with its list of folders, once read.
pub open spec fn automation_view(row: (String, Option<Vec<String>>)) -> (
    Seq<char>,
    Option<Seq<Seq<char>>>,
) {
    (
        row.0@,
        match row.1 {
            Some(v) => Some(names(v@)),
            None => None,
        },
    )
}

/// Automations with their lists of folders, once read.
pub open spec fn automation_views(rows: Seq<(String, Option<Vec<String>>)>) -> Seq<
    (Seq<char>, Option<Seq<Seq<char>>>),
> {
    rows.map_values(|r: (String, Option<Vec<String>>)| automation_view(r))
}

/// The name of the automation of each folder.
pub fn name_folders(rows: &Vec<(String, Option<Vec<String>>)>) -> (r: TextMap<String>)
    ensures
        name_views(r@) == folder_names(automation_views(rows@)),
{
    let ghost views = automation_views(rows@);
    let mut out: TextMap<String> = TextMap::new();
    let mut i: usize = 0;
    assert(name_views(out@) =~= folder_names(views.take(0)));
    while i < rows.len()
        invariant
            i <= rows@.len(),
            views == automation_views(rows@),
            name_views(out@) == folder_names(views.take(i as int)),
        decreases rows@.len() - i,
    {
        assert(views.take(i + 1).drop_last() == views.take(i as int));
        assert(views.take(i + 1).last() == automation_view(rows@[i as int]));
        let name = &rows[i].0;
        if !name.as_str().is_empty() {
            if let Some(folders) = &rows[i].1 {
                let ghost start = name_views(out@);
                let ghost fv = names(folders@);
                let mut k: usize = 0;
                assert(fv.take(0) == Seq::<Seq<char>>::empty());
                while k < folders.len()
                    invariant
                        k <= folders@.len(),
                        fv == names(folders@),
                        name_views(out@) == under_folders(start, name@, fv.take(k as int)),
                    decreases folders@.len() - k,
                {
                    assert(fv.take(k + 1).drop_last() == fv.take(k as int));
                    assert(fv.take(k + 1).last() == folders@[k as int]@);
                    if !folders[k].as_str().is_empty() {
                        let ghost had = out@;
                        let key = normalize_path(folders[k].as_str());
                        let ghost kv = key@;
                        out.insert(key, name.clone());
                        assert(name_views(out@) =~= name_views(had).insert(kv, name@));
                    }
                    k = k + 1;
                }
                assert(fv.take(k as int) == fv);
            }
        }
        i = i + 1;
    }
    assert(views.take(i as int) == views);
    out
}

/// Automations as they are stored: a name and the text of a list of folders.
pub open spec fn stored_automations(rows: Seq<(String, String)>) -> Seq<
    (Seq<char>, Option<Seq<Seq<char>>>),
> {
    rows.map_values(|r: (String, String)| (r.0@, text_list(r.1@)))
}

/// The name of the automation of each folder, from the stored rows.
pub fn automation_names(rows: &Vec<(String, String)>) -> (r: TextMap<String>)
    ensures
        name_views(r@) == folder_names(stored_automations(rows@)),
{
    let mut read: Vec<(String, Option<Vec<String>>)> = Vec::new();
    let mut i: usize = 0;
    while i < rows.len()
        invariant
            i <= rows@.len(),
            read@.len() == i,
            forall|j: int|
                0 <= j < i ==> automation_view(#[trigger] read@[j]) == (
                    rows@[j].0@,
                    text_list(rows@[j].1@),
                ),
        decreases rows@.len() - i,
    {
        read.push((rows[i].0.clone(), parse_text_list(rows[i].1.as_str())));
        i = i + 1;
    }
    assert(automation_views(read@) =~= stored_automations(rows@));
    name_folders(&read)
}

/// A title that says something.
pub open spec fn telling(t: Seq<char>) -> bool {
    t.len() > 0 && t != "(untitled)"@
}

/// The label of a task or an automation: the name found for it, else the title
/// of the session, else its folder.
pub open spec fn label_of(
    found: Option<Seq<char>>,
    title: Seq<char>,
    cwd: Option<Seq<char>>,
    prefix: Seq<char>,
    bare: Seq<char>,
) -> Seq<char> {
    if found matches Some(t) && telling(t) {
        found->0
    } else if telling(text::trimmed(title)) {
        text::trimmed(title)
    } else {
        match cwd {
            Some(p) => prefix + leaf(p),
            None => bare,
        }
    }
}

/// The last name of a folder in its usual form; nothing without a folder.
pub open spec fn folder_leaf(cwd: Option<Seq<char>>) -> Seq<char> {
    match cwd {
        Some(c) => leaf(normalized(c)),
        None => Seq::empty(),
    }
}

/// The workspace is that of an automation. The shape of the folder decides: the
/// flag in the database is set on ordinary sessions too.
pub open spec fn automation_folder(cwd: Option<Seq<char>>) -> bool {
    text::begins(folder_leaf(cwd), "automation-"@)
}

/// The workspace is that of a task.
pub open spec fn task_workspace(cwd: Option<Seq<char>>, meta: Option<MetaView>) -> bool {
    ||| meta matches Some(m) && m.is_playground
    ||| cwd matches Some(c) && task_folder(leaf(normalized(c))) && under_workbuddy(normalized(c))
}

/// How a workspace is grouped, and the label of its group.
pub open spec fn grouping(
    cwd: Option<Seq<char>>,
    meta: Option<MetaView>,
    automations: Map<Seq<char>, Seq<char>>,
    title: Seq<char>,
) -> (ProjectCategory, Seq<char>) {
    let place = match cwd {
        Some(c) => Some(normalized(c)),
        None => None,
    };
    let own = match meta {
        Some(m) => chosen_title(m),
        None => None,
    };
    if automation_folder(cwd) {
        let found = if place matches Some(p) && automations.contains_key(p) {
            Some(automations[place->0])
        } else {
            own
        };
        (ProjectCategory::Automation, label_of(found, title, place, "自动化 · "@, "自动化"@))
    } else if task_workspace(cwd, meta) {
        (ProjectCategory::Task, label_of(own, title, place, "任务 · "@, "任务"@))
    } else {
        (
            ProjectCategory::Project,
            if folder_leaf(cwd).len() > 0 {
                folder_leaf(cwd)
            } else {
                "(unknown project)"@
            },
        )
    }
}

/// Whether a title says something.
fn is_telling(t: &str) -> (r: bool)
    ensures
        r == telling(t@),
{
    !t.is_empty() && !text::same(t, "(untitled)")
}

/// The label of a task or an automation.
fn group_label(
    found: Option<String>,
    title: &str,
    cwd: &Option<String>,
    prefix: &str,
    bare: &str,
) -> (r: String)
    ensures
        r@ == label_of(text::opt(found), title@, text::opt(*cwd), prefix@, bare@),
{
    if let Some(t) = found {
        if is_telling(t.as_str()) {
            return t;
        }
    }
    let t = text::trim(title);
    if is_telling(t.as_str()) {
        return t;
    }
    match cwd {
        Some(p) => {
            let mut r = prefix.to_string();
            r.append(path_leaf(p.as_str()).as_str());
            r
        },
        None => bare.to_string(),
    }
}

/// The content of an optional reference to session data.
pub open spec fn meta_view(meta: Option<&SessionMeta>) -> Option<MetaView> {
    match meta {
        Some(m) => Some(m@),
        None => None,
    }
}

/// The content of an optional text slice.
pub open spec fn slice_view(s: Option<&str>) -> Option<Seq<char>> {
    match s {
        Some(x) => Some(x@),
        None => None,
    }
}

/// How a workspace is grouped in the bind picker, and the label of its group:
/// automations by the shape of their folder, tasks by the database or the shape
/// of their folder, anything else as a project.
pub fn classify_workspace(
    cwd: Option<&str>,
    meta: Option<&SessionMeta>,
    automation_names: &TextMap<String>,
    session_title: &str,
) -> (r: (ProjectCategory, String))
    ensures
        (r.0, r.1@) == grouping(
            slice_view(cwd),
            meta_view(meta),
            name_views(automation_names@),
            session_title@,
        ),
{
    let place: Option<String> = match cwd {
        Some(c) => Some(normalize_path(c)),
        None => None,
    };
    let cwd_leaf: String = match &place {
        Some(p) => path_leaf(p.as_str()),
        None => String::new(),
    };
    let own: Option<String> = match meta {
        Some(m) => preferred_title(m),
        None => None,
    };
    if text::starts_with(cwd_leaf.as_str(), "automation-") {
        let found: Option<String> = match &place {
            Some(p) => match automation_names.get(p.as_str()) {
                Some(n) => Some(n.clone()),
                None => own,
            },
            None => own,
        };
        let label = group_label(found, session_title, &place, "自动化 · ", "自动化");
        return (ProjectCategory::Automation, label);
    }
    let playground: bool = match meta {
        Some(m) => m.is_playground,
        None => false,
    };
    let in_task_folder: bool = match &place {
        Some(p) => is_task_timestamp_folder(cwd_leaf.as_str()) && is_under_workbuddy_home(
            p.as_str(),
        ),
        None => false,
    };
    if playground || in_task_folder {
        let label = group_label(own, session_title, &place, "任务 · ", "任务");
        return (ProjectCategory::Task, label);
    }
    let label = if cwd_leaf.as_str().is_empty() {
        "(unknown project)".to_string()
    } else {
        cwd_leaf
    };
    (ProjectCategory::Project, label)
}

/// The automation flag of the database alone never makes an automation: with
/// or without it, a workspace is grouped the same.
pub proof fn lemma_automation_flag_does_not_count(
    cwd: Option<Seq<char>>,
    meta: MetaView,
    flag: bool,
    automations: Map<Seq<char>, Seq<char>>,
    title: Seq<char>,
)
    ensures
        grouping(cwd, Some(meta), automations, title) == grouping(
            cwd,
            Some(MetaView { is_background_automation: flag, ..meta }),
            automations,
            title,
        ),
{
}

/// Every workspace has a label.
pub proof fn lemma_label_is_never_empty(
    cwd: Option<Seq<char>>,
    meta: Option<MetaView>,
    automations: Map<Seq<char>, Seq<char>>,
    title: Seq<char>,
)
    ensures
        grouping(cwd, meta, automations, title).1.len() > 0,
{
    reveal_strlit("自动化 · ");
    reveal_strlit("自动化");
    reveal_strlit("任务 · ");
    reveal_strlit("任务");
    reveal_strlit("(unknown project)");
}

/// A stored text counts if it is there and not empty; the two flags are set by any
/// number but zero; a time before the epoch counts as the epoch.
pub proof fn lemma_row_is_read_field_by_field(row: SessionRow, m: MetaView)
    requires
        m == meta_of(row),
    ensures
        (row.title matches Some(t) && t@.len() > 0) ==> m.title == Some(row.title->0@),
        m.title is Some ==> (row.title matches Some(t) && t@.len() > 0),
        (row.custom_title matches Some(t) && t@.len() > 0) ==> m.custom_title == Some(
            row.custom_title->0@,
        ),
        m.custom_title is Some ==> (row.custom_title matches Some(t) && t@.len() > 0),
        (row.cwd matches Some(t) && t@.len() > 0) ==> m.cwd == Some(row.cwd->0@),
        m.cwd is Some ==> (row.cwd matches Some(t) && t@.len() > 0),
        (row.status matches Some(t) && t@.len() > 0) ==> m.status == Some(row.status->0@),
        m.status is Some ==> (row.status matches Some(t) && t@.len() > 0),
        m.is_playground <==> row.is_playground != 0,
        m.is_background_automation <==> row.is_background_automation != 0,
        m.updated_at is Some <==> row.updated_at is Some,
        row.updated_at matches Some(t) ==> m.updated_at->0 == (if t < 0 {
            0
        } else {
            t as int
        }),
{
}

/// Of several rows with one id the last counts, and an id without a row is not
/// known.
pub proof fn lemma_last_row_counts(rows: Seq<SessionRow>, i: int, id: Seq<char>)
    requires
        -1 <= i < rows.len(),
        forall|k: int| i < k < rows.len() ==> (#[trigger] rows[k]).id@ != id,
        i >= 0 ==> rows[i].id@ == id,
    ensures
        meta_map(rows).contains_key(id) <==> i >= 0,
        i >= 0 ==> meta_map(rows)[id] == meta_of(rows[i]),
    decreases rows.len(),
{
    if rows.len() > 0 && i < rows.len() - 1 {
        let t = rows.drop_last();
        assert forall|k: int| i < k < t.len() implies (#[trigger] t[k]).id@ != id by {
            assert(rows[k].id@ != id);
        }
        lemma_last_row_counts(t, i, id);
        assert(rows[rows.len() - 1].id@ != id);
    }
}

/// A session is archived exactly if its status spells so, in any case.
pub proof fn lemma_archived_by_its_status(m: MetaView)
    ensures
        m.status is None ==> !archived(m),
        m.status matches Some(s) ==> (archived(m) <==> text::spells(s, "archived"@)),
{
    reveal_strlit("archived");
    text::lemma_lowered_spells("archived"@, "archived"@);
    if m.status is Some {
        text::lemma_lowered_spells(m.status->0, "archived"@);
    }
}

/// The user's own title counts before the generated one; an empty title is none.
pub proof fn lemma_own_title_comes_first(m: MetaView)
    ensures
        (m.custom_title matches Some(t) && t.len() > 0) ==> chosen_title(m) == m.custom_title,
        !(m.custom_title matches Some(t) && t.len() > 0) && (m.title matches Some(t) && t.len() > 0)
            ==> chosen_title(m) == m.title,
        !(m.custom_title matches Some(t) && t.len() > 0) && !(m.title matches Some(t) && t.len()
            > 0) ==> chosen_title(m) is None,
{
}

proof fn lemma_unterminated_is_a_start(p: Seq<char>)
    ensures
        unterminated(p).len() <= p.len(),
        p.take(unterminated(p).len() as int) == unterminated(p),
        forall|i: int| unterminated(p).len() <= i < p.len() ==> #[trigger] p[i] == '/',
        unterminated(p).len() > 1 ==> unterminated(p).last() != '/',
        p.len() > 0 ==> unterminated(p).len() > 0,
    decreases p.len(),
{
    if p.len() > 1 && p.last() == '/' {
        let t = p.drop_last();
        lemma_unterminated_is_a_start(t);
        let n = unterminated(p).len() as int;
        assert(p.take(n) =~= t.take(n));
        assert forall|i: int| n <= i < p.len() implies #[trigger] p[i] == '/' by {
            if i < p.len() - 1 {
                assert(t[i] == p[i]);
            }
        }
    } else {
        assert(p.take(p.len() as int) =~= p);
    }
}

/// A normalized path is the path with each backslash as a slash, up to the slashes
/// at its end, all of which are dropped but for a lone one.
pub proof fn lemma_normalized_drops_ends(p: Seq<char>, i: int)
    ensures
        ({
            let r = normalized(p);
            &&& r.len() <= p.len()
            &&& 0 <= i < r.len() ==> r[i] == (if p[i] == '\\' {
                '/'
            } else {
                p[i]
            })
            &&& r.len() <= i < p.len() ==> p[i] == '/' || p[i] == '\\'
            &&& r.len() > 1 ==> r.last() != '/'
            &&& p.len() > 0 ==> r.len() > 0
        }),
{
    let q = slashed(p);
    lemma_unterminated_is_a_start(q);
    let r = unterminated(q);
    if 0 <= i < r.len() {
        assert(r[i] == q.take(r.len() as int)[i]);
    }
    if r.len() <= i < p.len() {
        assert(q[i] == '/');
    }
}

/// A path without backslashes that does not end in a slash is normal.
pub proof fn lemma_plain_path_is_normal(p: Seq<char>)
    requires
        !p.contains('\\'),
        p.len() > 0 ==> p.last() != '/',
    ensures
        normalized(p) == p,
{
    assert forall|i: int| 0 <= i < p.len() implies slashed(p)[i] == p[i] by {
        assert(p[i] != '\\');
    }
    assert(slashed(p) =~= p);
}

proof fn lemma_parts_of_open_end(s: Seq<char>)
    requires
        s.len() > 0,
        s.last() != '/',
    ensures
        parts(s).len() > 0,
    decreases s.len(),
{
}

/// The names in two paths that are joined by a slash are those of the first and
/// then those of the second.
pub proof fn lemma_parts_of_joined(a: Seq<char>, b: Seq<char>)
    ensures
        parts(a + "/"@ + b) == parts(a) + parts(b),
    decreases b.len(),
{
    reveal_strlit("/");
    let s = a + "/"@ + b;
    assert("/"@.len() == 1 && "/"@[0] == '/');
    if b.len() == 0 {
        assert(s.drop_last() =~= a);
        assert(s.last() == '/');
        assert(parts(b) =~= Seq::<Seq<char>>::empty());
        assert(parts(a) + parts(b) =~= parts(a));
    } else {
        let t = b.drop_last();
        let c = b.last();
        lemma_parts_of_joined(a, t);
        assert(s.drop_last() =~= a + "/"@ + t);
        assert(s.last() == c);
        let (pa, pt) = (parts(a), parts(t));
        if c == '/' {
        } else if b.len() >= 2 && b[b.len() - 2] != '/' {
            assert(s[s.len() - 2] == b[b.len() - 2]);
            assert(t.last() == b[b.len() - 2]);
            lemma_parts_of_open_end(t);
            assert((pa + pt).last() == pt.last());
            assert((pa + pt).drop_last() =~= pa + pt.drop_last());
            assert((pa + pt.drop_last()).push(pt.last().push(c)) =~= pa + pt.drop_last().push(
                pt.last().push(c),
            ));
        } else {
            if b.len() >= 2 {
                assert(s[s.len() - 2] == b[b.len() - 2]);
            } else {
                assert(s[s.len() - 2] == '/');
            }
            assert((pa + pt).push(seq![c]) =~= pa + pt.push(seq![c]));
        }
    }
}

/// A path without a slash is one name; an empty one has none.
pub proof fn lemma_parts_of_a_name(s: Seq<char>)
    requires
        !s.contains('/'),
    ensures
        parts(s) == (if s.len() == 0 {
            Seq::empty()
        } else {
            seq![s]
        }),
    decreases s.len(),
{
    if s.len() > 0 {
        let t = s.drop_last();
        assert forall|i: int| 0 <= i < t.len() implies t[i] != '/' by {
            assert(s[i] != '/');
        }
        lemma_parts_of_a_name(t);
        assert(s[s.len() - 1] != '/');
        if s.len() >= 2 {
            assert(s[s.len() - 2] != '/');
            assert(t.push(s.last()) =~= s);
            assert(parts(t).drop_last().push(parts(t).last().push(s.last())) =~= seq![s]);
        } else {
            assert(seq![s.last()] =~= s);
            assert(parts(t).push(seq![s.last()]) =~= seq![s]);
        }
    }
}

/// This is the name of a folder or a file: not empty, and without a slash of
/// either kind.
pub open spec fn is_name(x: Seq<char>) -> bool {
    x.len() > 0 && !x.contains('/') && !x.contains('\\')
}

proof fn lemma_names_behind(a: Seq<char>, x: Seq<char>)
    requires
        is_name(x),
    ensures
        parts(a + "/"@ + x) == parts(a).push(x),
        (a + "/"@ + x).last() != '/',
        !a.contains('\\') ==> normalized(a + "/"@ + x) == a + "/"@ + x,
{
    reveal_strlit("/");
    let p = a + "/"@ + x;
    lemma_parts_of_joined(a, x);
    lemma_parts_of_a_name(x);
    assert(parts(a) + seq![x] =~= parts(a).push(x));
    assert(p.last() == x[x.len() - 1]);
    if !a.contains('\\') {
        assert forall|i: int| 0 <= i < p.len() implies p[i] != '\\' by {
            if i < a.len() {
                assert(p[i] == a[i]);
            } else if i == a.len() {
                assert(p[i] == '/');
            } else {
                assert(p[i] == x[i - a.len() - 1]);
            }
        }
        lemma_plain_path_is_normal(p);
    }
}

/// The last name of a path is what follows its last slash.
pub proof fn lemma_leaf_follows_the_last_slash(a: Seq<char>, x: Seq<char>)
    requires
        is_name(x),
    ensures
        leaf(a + "/"@ + x) == x,
        leaf(x) == x,
{
    lemma_names_behind(a, x);
    lemma_parts_of_a_name(x);
}

/// A folder is one of WorkBuddy's own exactly if the folder above it spells so,
/// in any case; the folder of the Claw is that of these which spells so.
pub proof fn lemma_workbuddy_folders(a: Seq<char>, w: Seq<char>, x: Seq<char>)
    requires
        is_name(w),
        is_name(x),
        !a.contains('\\'),
    ensures
        ({
            let p = a + "/"@ + w + "/"@ + x;
            &&& under_workbuddy(p) <==> text::spells(w, "workbuddy"@)
            &&& claw(Some(p)) <==> text::spells(w, "workbuddy"@) && text::spells(x, "claw"@)
            &&& !under_workbuddy(x)
            &&& !claw(Some(x))
            &&& !claw(None)
        }),
{
    reveal_strlit("/");
    reveal_strlit("workbuddy");
    reveal_strlit("WorkBuddy");
    reveal_strlit("Claw");
    reveal_strlit("claw");
    let b = a + "/"@ + w;
    let p = b + "/"@ + x;
    lemma_names_behind(a, w);
    lemma_names_behind(b, x);
    lemma_parts_of_a_name(x);
    assert(!b.contains('\\')) by {
        assert forall|i: int| 0 <= i < b.len() implies b[i] != '\\' by {
            if i < a.len() {
                assert(b[i] == a[i]);
            } else if i > a.len() {
                assert(b[i] == w[i - a.len() - 1]);
            }
        }
    }
    assert(x.last() != '/') by {
        assert(x[x.len() - 1] != '/');
    }
    lemma_plain_path_is_normal(x);
    text::lemma_lowered_spells("WorkBuddy"@, "workbuddy"@);
    text::lemma_lowered_spells("Claw"@, "claw"@);
    text::lemma_lowered_spells(w, "workbuddy"@);
    text::lemma_lowered_spells(x, "claw"@);
    assert(text::spells("WorkBuddy"@, "workbuddy"@));
    assert(text::spells("Claw"@, "claw"@));
    let q = parts(p);
    assert(q[q.len() - 2] == w);
    assert(q.last() == x);
}

/// A folder of a task is named by a date and a time, as digits alone or with
/// dashes, of which three are where those of a date stand.
pub proof fn lemma_task_folders_are_dates(x: Seq<char>)
    ensures
        task_folder(x) ==> x.len() == 14 || x.len() == 19,
        x.len() == 14 ==> (task_folder(x) <==> forall|i: int|
            0 <= i < 14 ==> '0' <= (#[trigger] x[i]) && x[i] <= '9'),
        x.len() == 19 ==> (task_folder(x) <==> x[4] == '-' && x[7] == '-' && x[10] == '-' && forall|
            i: int,
        |
            0 <= i < 19 ==> ('0' <= (#[trigger] x[i]) && x[i] <= '9') || x[i] == '-'),
{
}

/// An automation names the folders that it lists, but for empty ones, and no
/// others; one without a name or without a readable list names none.
pub proof fn lemma_automation_names_its_folders(
    rows: Seq<(Seq<char>, Option<Seq<Seq<char>>>)>,
    name: Seq<char>,
    folders: Seq<Seq<char>>,
    f: Seq<char>,
)
    ensures
        ({
            let before = folder_names(rows);
            let after = folder_names(rows.push((name, Some(folders))));
            let names_it = exists|i: int|
                0 <= i < folders.len() && (#[trigger] folders[i]).len() > 0 && normalized(
                    folders[i],
                ) == f;
            &&& name.len() > 0 && names_it ==> after.contains_key(f) && after[f] == name
            &&& name.len() == 0 || !names_it ==> after.contains_key(f) == before.contains_key(f)
                && after[f] == before[f]
            &&& folder_names(rows.push((name, None))) == before
            &&& !folder_names(Seq::empty()).contains_key(f)
        }),
{
    let more = rows.push((name, Some(folders)));
    assert(more.drop_last() =~= rows);
    assert(rows.push((name, None)).drop_last() =~= rows);
    lemma_under_folders(folder_names(rows), name, folders, f);
}

proof fn lemma_under_folders(
    m: Map<Seq<char>, Seq<char>>,
    name: Seq<char>,
    folders: Seq<Seq<char>>,
    f: Seq<char>,
)
    ensures
        ({
            let after = under_folders(m, name, folders);
            let names_it = exists|i: int|
                0 <= i < folders.len() && (#[trigger] folders[i]).len() > 0 && normalized(
                    folders[i],
                ) == f;
            &&& names_it ==> after.contains_key(f) && after[f] == name
            &&& !names_it ==> after.contains_key(f) == m.contains_key(f) && after[f] == m[f]
        }),
    decreases folders.len(),
{
    if folders.len() > 0 {
        let t = folders.drop_last();
        let n = folders.len() - 1;
        lemma_under_folders(m, name, t, f);
        if exists|i: int|
            0 <= i < folders.len() && (#[trigger] folders[i]).len() > 0 && normalized(folders[i])
                == f {
            let i = choose|i: int|
                0 <= i < folders.len() && (#[trigger] folders[i]).len() > 0 && normalized(
                    folders[i],
                ) == f;
            if i < n {
                assert(t[i] == folders[i]);
            }
        } else {
            assert forall|i: int| 0 <= i < t.len() implies !((#[trigger] t[i]).len() > 0
                && normalized(t[i]) == f) by {
                assert(t[i] == folders[i]);
            }
            assert(folders[n].len() == 0 || normalized(folders[n]) != f);
        }
    }
}

/// A session belongs to the automations exactly if its folder's name starts with
/// their prefix, whatever else is known of it; else to the tasks exactly if it is
/// a playground or in a folder of WorkBuddy that is named by a date; else to the
/// projects, under the name of its folder.
pub proof fn lemma_folder_decides_the_group(
    a: Seq<char>,
    x: Seq<char>,
    meta: Option<MetaView>,
    automations: Map<Seq<char>, Seq<char>>,
    title: Seq<char>,
)
    requires
        is_name(x),
        !a.contains('\\'),
    ensures
        ({
            let g = grouping(Some(a + "/"@ + x), meta, automations, title);
            let prefixed = x.len() >= 11 && x.take(11) == "automation-"@;
            let playground = meta matches Some(m) && m.is_playground;
            &&& g.0 is Automation <==> prefixed
            &&& !prefixed && playground ==> g.0 is Task
            &&& !prefixed && !playground && !task_folder(x) ==> g.0 is Project
            &&& g.0 is Project ==> g.1 == x
        }),
{
    reveal_strlit("automation-");
    lemma_names_behind(a, x);
    lemma_leaf_follows_the_last_slash(a, x);
    assert("automation-"@.len() == 11);
    if x.len() >= 11 {
        assert(x.take(11) =~= x.subrange(0, 11));
    }
}

/// A date folder that is no playground belongs to the tasks exactly if it stands
/// in a folder that spells WorkBuddy.
pub proof fn lemma_date_folder_is_a_task(
    a: Seq<char>,
    w: Seq<char>,
    x: Seq<char>,
    meta: Option<MetaView>,
    automations: Map<Seq<char>, Seq<char>>,
    title: Seq<char>,
)
    requires
        is_name(w),
        is_name(x),
        !a.contains('\\'),
        task_folder(x),
        !(meta matches Some(m) && m.is_playground),
    ensures
        grouping(Some(a + "/"@ + w + "/"@ + x), meta, automations, title).0
            == (if text::spells(w, "workbuddy"@) {
            ProjectCategory::Task
        } else {
            ProjectCategory::Project
        }),
{
    reveal_strlit("/");
    reveal_strlit("automation-");
    let b = a + "/"@ + w;
    assert(!b.contains('\\')) by {
        assert forall|i: int| 0 <= i < b.len() implies b[i] != '\\' by {
            if i < a.len() {
                assert(b[i] == a[i]);
            } else if i > a.len() {
                assert(b[i] == w[i - a.len() - 1]);
            }
        }
    }
    lemma_workbuddy_folders(a, w, x);
    lemma_names_behind(b, x);
    lemma_leaf_follows_the_last_slash(b, x);
    if text::begins(x, "automation-"@) {
        assert(x.subrange(0, 11)[0] == 'a');
        assert(x[0] == 'a');
        assert(is_digit(x[0]) || x[0] == '-');
    }
}

/// Without a folder a session is a task if it is a playground, and else of an
/// unknown project.
pub proof fn lemma_group_without_a_folder(
    meta: Option<MetaView>,
    automations: Map<Seq<char>, Seq<char>>,
    title: Seq<char>,
)
    ensures
        ({
            let g = grouping(None, meta, automations, title);
            if meta matches Some(m) && m.is_playground {
                g.0 is Task
            } else {
                g == (ProjectCategory::Project, "(unknown project)"@)
            }
        }),
{
    reveal_strlit("automation-");
    reveal_strlit("(unknown project)");
}

/// A task or an automation goes by the first of these that is not empty and not
/// the placeholder: the automation's name for the folder, or else the session's
/// stored title (for a task, the stored title alone); the title in the log, without
/// the white space around it. Without any it goes by its folder.
pub proof fn lemma_label_of_tasks_and_automations(
    cwd: Seq<char>,
    meta: Option<MetaView>,
    automations: Map<Seq<char>, Seq<char>>,
    title: Seq<char>,
)
    ensures
        ({
            let g = grouping(Some(cwd), meta, automations, title);
            let place = normalized(cwd);
            let own = if meta is Some {
                chosen_title(meta->0)
            } else {
                None
            };
            let named = if g.0 is Automation && automations.contains_key(place) {
                Some(automations[place])
            } else {
                own
            };
            let plain = text::trimmed(title);
            let named_counts = named matches Some(t) && t.len() > 0 && t != "(untitled)"@;
            let plain_counts = plain.len() > 0 && plain != "(untitled)"@;
            &&& !(g.0 is Project) && named_counts ==> g.1 == named->0
            &&& !(g.0 is Project) && !named_counts && plain_counts ==> g.1 == plain
            &&& g.0 is Automation && !named_counts && !plain_counts ==> g.1 == "自动化 · "@ + leaf(
                place,
            )
            &&& g.0 is Task && !named_counts && !plain_counts ==> g.1 == "任务 · "@ + leaf(place)
        }),
{
}

/// A playground without a folder goes by its stored title, or else by the one in
/// the log, or else by the bare word for a task.
pub proof fn lemma_label_without_a_folder(
    m: MetaView,
    automations: Map<Seq<char>, Seq<char>>,
    title: Seq<char>,
)
    requires
        m.is_playground,
    ensures
        ({
            let g = grouping(None, Some(m), automations, title);
            let own = chosen_title(m);
            let plain = text::trimmed(title);
            let own_counts = own matches Some(t) && t.len() > 0 && t != "(untitled)"@;
            let plain_counts = plain.len() > 0 && plain != "(untitled)"@;
            &&& own_counts ==> g.1 == own->0
            &&& !own_counts && plain_counts ==> g.1 == plain
            &&& !own_counts && !plain_counts ==> g.1 == "任务"@
        }),
{
    reveal_strlit("automation-");
}

} // verus!
