//! How a session is opened in the application that it belongs to.
use crate::host;
use crate::host::{InfoView, SessionInfo};
use crate::protocol::{BackendId, BoardState, BoardStateView};
use crate::text;
use vstd::prelude::*;
use vstd::utf8;

verus! {

/// The byte stands for itself in the path of a link.
pub open spec fn kept(b: u8) -> bool {
    ||| 0x41 <= b <= 0x5A
    ||| 0x61 <= b <= 0x7A
    ||| 0x30 <= b <= 0x39
    ||| b == 0x2D
    ||| b == 0x2E
    ||| b == 0x5F
    ||| b == 0x7E
    ||| b == 0x2F
}

/// The upper-case hexadecimal digit of a number below sixteen.
pub open spec fn hex_digit(d: int) -> char {
    if d < 10 {
        (48 + d) as char
    } else {
        (55 + d) as char
    }
}

/// What stands for a byte in the path of a link.
pub open spec fn escaped(b: u8) -> Seq<char> {
    if kept(b) {
        seq![b as char]
    } else {
        seq!['%', hex_digit(b as int / 16), hex_digit(b as int % 16)]
    }
}

/// What stands for these bytes in the path of a link.
pub open spec fn encoded(bytes: Seq<u8>) -> Seq<char>
    decreases bytes.len(),
{
    if bytes.len() == 0 {
        Seq::empty()
    } else {
        encoded(bytes.drop_last()) + escaped(bytes.last())
    }
}

fn hex(d: u8) -> (r: char)
    requires
        d < 16,
    ensures
        r == hex_digit(d as int),
{
    if d < 10 {
        (48 + d) as char
    } else {
        (55 + d) as char
    }
}

/// The path as the value of a link's query: letters, digits, `-`, `.`, `_`, `~`
/// and `/` stay, every other byte of its UTF-8 form is percent-encoded.
pub fn url_encode_path(path: &str) -> (r: String)
    ensures
        r@ == encoded(utf8::encode_utf8(path@)),
{
    let bytes = path.as_bytes();
    let mut out = String::new();
    let mut i: usize = 0;
    assert(out@ =~= encoded(bytes@.take(0)));
    while i < bytes.len()
        invariant
            i <= bytes@.len(),
            out@ == encoded(bytes@.take(i as int)),
        decreases bytes@.len() - i,
    {
        let b: u8 = bytes[i];
        let ghost had = out@;
        let stays: bool = (0x41 <= b && b <= 0x5A) || (0x61 <= b && b <= 0x7A) || (0x30 <= b && b
            <= 0x39) || b == 0x2D || b == 0x2E || b == 0x5F || b == 0x7E || b == 0x2F;
        if stays {
            out.push(b as char);
        } else {
            out.push('%');
            out.push(hex(b / 16));
            out.push(hex(b % 16));
        }
        assert(bytes@.take(i + 1).drop_last() == bytes@.take(i as int));
        assert(out@ =~= had + escaped(b));
        i = i + 1;
    }
    assert(bytes@.take(i as int) == bytes@);
    out
}

/// The value of a hexadecimal digit.
pub open spec fn hex_value(c: char) -> Option<int> {
    if '0' <= c && c <= '9' {
        Some(c as u32 - 48)
    } else if 'A' <= c && c <= 'F' {
        Some(c as u32 - 55)
    } else if 'a' <= c && c <= 'f' {
        Some(c as u32 - 87)
    } else {
        None
    }
}

/// The bytes that the value of a link's query stands for: a plus sign is a
/// space, `%` with two hexadecimal digits is that byte, and everything else is itself.
pub open spec fn decoded(s: Seq<char>) -> Seq<u8>
    decreases s.len(),
{
    if s.len() == 0 {
        Seq::empty()
    } else if s[0] == '+' {
        seq![0x20u8] + decoded(s.skip(1))
    } else if s[0] == '%' && s.len() >= 3 && hex_value(s[1]) is Some && hex_value(s[2]) is Some {
        seq![(16 * hex_value(s[1])->0 + hex_value(s[2])->0) as u8] + decoded(s.skip(3))
    } else {
        utf8::encode_utf8(seq![s[0]]) + decoded(s.skip(1))
    }
}

proof fn lemma_escaped_is_read_back(b: u8, rest: Seq<char>)
    ensures
        decoded(escaped(b) + rest) == seq![b] + decoded(rest),
{
    let s = escaped(b) + rest;
    if kept(b) {
        assert(s.skip(1) =~= rest);
        let c = b as char;
        assert(s[0] == c);
        assert(utf8::is_ascii_chars(seq![c]));
        utf8::is_ascii_chars_encode_utf8(seq![c]);
        assert(utf8::encode_utf8(seq![c]) =~= seq![b]);
    } else {
        assert(s.skip(3) =~= rest);
        assert(s[0] == '%' && s[1] == hex_digit(b as int / 16) && s[2] == hex_digit(
            b as int % 16,
        ));
        assert(hex_value(s[1]) == Some(b as int / 16));
        assert(hex_value(s[2]) == Some(b as int % 16));
        assert(16 * (b as int / 16) + b as int % 16 == b);
    }
}

proof fn lemma_encoded_is_read_back(bytes: Seq<u8>, rest: Seq<char>)
    ensures
        decoded(encoded(bytes) + rest) == bytes + decoded(rest),
    decreases bytes.len(),
{
    if bytes.len() == 0 {
        assert(encoded(bytes) + rest =~= rest);
        assert(bytes + decoded(rest) =~= decoded(rest));
    } else {
        let b = bytes.last();
        let init = bytes.drop_last();
        lemma_encoded_is_read_back(init, escaped(b) + rest);
        lemma_escaped_is_read_back(b, rest);
        assert(encoded(bytes) + rest =~= encoded(init) + (escaped(b) + rest));
        assert(init + (seq![b] + decoded(rest)) =~= bytes + decoded(rest));
    }
}

/// The application that reads the link's query gets back the path, whatever
/// characters it holds.
pub proof fn lemma_path_is_read_back(path: Seq<char>)
    ensures
        decoded(encoded(utf8::encode_utf8(path))) == utf8::encode_utf8(path),
        utf8::decode_utf8(decoded(encoded(utf8::encode_utf8(path)))) == path,
{
    let bytes = utf8::encode_utf8(path);
    lemma_encoded_is_read_back(bytes, Seq::empty());
    assert(encoded(bytes) + Seq::<char>::empty() =~= encoded(bytes));
    assert(bytes + decoded(Seq::<char>::empty()) =~= bytes);
    utf8::encode_utf8_decode_utf8(path);
}

/// An encoded path holds only characters that a link's query may hold.
pub proof fn lemma_encoded_is_plain(bytes: Seq<u8>, i: int)
    requires
        0 <= i < encoded(bytes).len(),
    ensures
        encoded(bytes)[i] == '%' || ((encoded(bytes)[i] as u32) < 128 && kept(
            encoded(bytes)[i] as u8,
        )),
    decreases bytes.len(),
{
    let init = encoded(bytes.drop_last());
    if i < init.len() {
        lemma_encoded_is_plain(bytes.drop_last(), i);
    } else {
        assert(encoded(bytes)[i] == escaped(bytes.last())[i - init.len()]);
    }
}

/// What to hand to the operating system.
#[derive(Debug, PartialEq)]
pub enum OpenTarget {
    /// A link, for the application that registered its scheme.
    Url(String),
    /// An application, by name.
    App(String),
}

/// The content of an `OpenTarget`.
pub enum TargetView {
    Url(Seq<char>),
    App(Seq<char>),
}

impl View for OpenTarget {
    type V = TargetView;

    open spec fn view(&self) -> TargetView {
        match *self {
            OpenTarget::Url(s) => TargetView::Url(s@),
            OpenTarget::App(s) => TargetView::App(s@),
        }
    }
}

/// The workspace of a picker row, if it is a real one.
pub open spec fn workspace_in(info: Option<InfoView>) -> Option<Seq<char>> {
    match info {
        Some(i) => match i.workspace_path {
            Some(p) => if p.len() > 0 && p != "(unknown project)"@ {
                Some(p)
            } else {
                None
            },
            None => None,
        },
        None => None,
    }
}

/// What opens a session. ZCode can be led to a workspace only, and is merely
/// brought up when that is not known.
pub open spec fn target_of(
    backend: BackendId,
    session_id: Seq<char>,
    info: Option<InfoView>,
) -> TargetView {
    match backend {
        BackendId::Zcode => match workspace_in(info) {
            Some(p) => TargetView::Url(
                "zcode://workspace/open?path="@ + encoded(utf8::encode_utf8(p)),
            ),
            None => TargetView::App("ZCode"@),
        },
        BackendId::Codex => TargetView::Url("codex://threads/"@ + session_id),
        BackendId::Workbuddy => TargetView::Url("workbuddy://chat/"@ + session_id),
    }
}

/// The content of an optional picker row.
pub open spec fn row_of(info: Option<&SessionInfo>) -> Option<InfoView> {
    match info {
        Some(i) => Some(i@),
        None => None,
    }
}

/// What opens a session, given its row of the bind picker.
pub fn open_target(backend: BackendId, session_id: &str, info: Option<&SessionInfo>) -> (r:
    OpenTarget)
    ensures
        r@ == target_of(backend, session_id@, row_of(info)),
{
    match backend {
        BackendId::Zcode => {
            if let Some(i) = info {
                if let Some(path) = &i.workspace_path {
                    if !path.as_str().is_empty() && !text::same(path.as_str(), "(unknown project)") {
                        let mut url = "zcode://workspace/open?path=".to_string();
                        url.append(url_encode_path(path.as_str()).as_str());
                        return OpenTarget::Url(url);
                    }
                }
            }
            OpenTarget::App("ZCode".to_string())
        },
        BackendId::Codex => {
            let mut url = "codex://threads/".to_string();
            url.append(session_id);
            OpenTarget::Url(url)
        },
        BackendId::Workbuddy => {
            let mut url = "workbuddy://chat/".to_string();
            url.append(session_id);
            OpenTarget::Url(url)
        },
    }
}

/// What to say when a session could not be opened, before the reason.
pub fn open_failure(backend: BackendId, target: &OpenTarget) -> (r: &'static str)
    ensures
        r@ == (match backend {
            BackendId::Zcode => if *target is Url {
                "open ZCode workspace failed: "@
            } else {
                "open ZCode failed: "@
            },
            BackendId::Codex => "open codex thread failed: "@,
            BackendId::Workbuddy => "open WorkBuddy task failed: "@,
        }),
{
    match backend {
        BackendId::Zcode => match target {
            OpenTarget::Url(_) => "open ZCode workspace failed: ",
            OpenTarget::App(_) => "open ZCode failed: ",
        },
        BackendId::Codex => "open codex thread failed: ",
        BackendId::Workbuddy => "open WorkBuddy task failed: ",
    }
}

/// How to bring up an application before a link is handed to it: a link that
/// arrives while the application starts can be lost.
#[derive(Debug, PartialEq)]
pub struct WarmUp {
    /// The application is up if a process matches this.
    pub running: String,
    /// Its name.
    pub app: String,
    /// Once started, it is ready when a process matches this.
    pub ready: String,
}

/// How to bring up the application of a backend; ZCode takes no second start
/// and needs none.
pub fn warm_up(backend: BackendId, macos: bool) -> (r: Option<WarmUp>)
    ensures
        r is None <==> backend == BackendId::Zcode,
        backend == BackendId::Codex ==> r->0.running@ == "ChatGPT.app/Contents/MacOS/ChatGPT"@
            && r->0.app@ == "ChatGPT"@ && r->0.ready@ == (if macos {
            "ChatGPT.app/Contents/MacOS/ChatGPT"@
        } else {
            "ChatGPT.exe"@
        }),
        backend == BackendId::Workbuddy ==> r->0.running@ == r->0.ready@ && r->0.app@
            == "WorkBuddy"@ && r->0.ready@ == (if macos {
            "WorkBuddy.app/Contents/MacOS"@
        } else {
            "WorkBuddy.exe"@
        }),
{
    match backend {
        BackendId::Zcode => None,
        BackendId::Codex => Some(
            WarmUp {
                running: "ChatGPT.app/Contents/MacOS/ChatGPT".to_string(),
                app: "ChatGPT".to_string(),
                ready: if macos {
                    "ChatGPT.app/Contents/MacOS/ChatGPT".to_string()
                } else {
                    "ChatGPT.exe".to_string()
                },
            },
        ),
        BackendId::Workbuddy => {
            let pattern: &str = if macos {
                "WorkBuddy.app/Contents/MacOS"
            } else {
                "WorkBuddy.exe"
            };
            Some(
                WarmUp {
                    running: pattern.to_string(),
                    app: "WorkBuddy".to_string(),
                    ready: pattern.to_string(),
                },
            )
        },
    }
}

/// How often to look for a starting application.
pub const READY_TRIES: u32 = 40;

/// What to do while an application starts.
#[derive(Debug, PartialEq, Eq, Structural, Clone, Copy)]
pub enum ReadyStep {
    /// It is up: wait this many milliseconds more, then go on.
    Up(u64),
    /// Look again after this many milliseconds.
    Again(u64),
    /// Go on without it.
    GiveUp,
}

/// What to do after looking `tries` times before, when the application is up or not.
pub fn ready_step(tries: u32, up: bool) -> (r: ReadyStep)
    ensures
        r == (if tries >= READY_TRIES {
            ReadyStep::GiveUp
        } else if up {
            ReadyStep::Up(500)
        } else {
            ReadyStep::Again(250)
        }),
{
    if tries >= READY_TRIES {
        ReadyStep::GiveUp
    } else if up {
        ReadyStep::Up(500)
    } else {
        ReadyStep::Again(250)
    }
}

/// The place of key `i` on a board.
pub open spec fn key_place(b: BoardStateView, i: int, n: int) -> Option<int>
    decreases n,
{
    if n <= 0 {
        None
    } else {
        match key_place(b, i, n - 1) {
            Some(k) => Some(k),
            None => if b.slots[n - 1].i == i {
                Some(n - 1)
            } else {
                None
            },
        }
    }
}

/// The session on key `i` with its backend, or why there is none to open.
pub open spec fn session_on(b: BoardStateView, i: usize) -> Result<
    (BackendId, Seq<char>),
    Seq<char>,
> {
    match key_place(b, i as int, b.slots.len() as int) {
        None => Err("slot "@ + text::decimal(i as nat) + " not found"@),
        Some(k) => match b.slots[k].session_id {
            None => Err("empty slot — long-press to bind a session"@),
            Some(id) => Ok(
                (
                    match b.slots[k].backend {
                        Some(x) => x,
                        None => BackendId::Zcode,
                    },
                    id,
                ),
            ),
        },
    }
}

proof fn lemma_key_place_stays(b: BoardStateView, i: int, m: int, n: int)
    requires
        m <= n,
        key_place(b, i, m) is Some,
    ensures
        key_place(b, i, n) == key_place(b, i, m),
    decreases n - m,
{
    if m < n {
        lemma_key_place_stays(b, i, m, n - 1);
    }
}

/// The session on key `i` with its backend, or why there is none to open.
pub fn slot_session(board: &BoardState, i: usize) -> (r: Result<(BackendId, String), String>)
    ensures
        (match r {
            Ok(p) => Ok((p.0, p.1@)),
            Err(e) => Err(e@),
        }) == session_on(board@, i),
{
    let ghost b = board@;
    let n: usize = board.slots.len();
    let mut k: usize = 0;
    while k < n
        invariant
            k <= n,
            n == board.slots@.len(),
            b == board@,
            key_place(b, i as int, k as int) is None,
        decreases n - k,
    {
        let slot = &board.slots[k];
        assert(b.slots[k as int] == slot@);
        if slot.i == i {
            proof {
                assert(key_place(b, i as int, k + 1) == Some(k as int));
                lemma_key_place_stays(b, i as int, k + 1, n as int);
            }
            return match &slot.session_id {
                None => Err("empty slot — long-press to bind a session".to_string()),
                Some(id) => {
                    let backend = match slot.backend {
                        Some(x) => x,
                        None => BackendId::Zcode,
                    };
                    Ok((backend, id.clone()))
                },
            };
        }
        k = k + 1;
    }
    let mut e = "slot ".to_string();
    e.append(text::to_decimal(i as u64).as_str());
    e.append(" not found");
    Err(e)
}

/// The first row of the bind picker with this session id.
pub open spec fn first_row(rows: Seq<InfoView>, id: Seq<char>) -> Option<InfoView>
    decreases rows.len(),
{
    if rows.len() == 0 {
        None
    } else {
        match first_row(rows.drop_last(), id) {
            Some(x) => Some(x),
            None => if rows.last().session_id == id {
                Some(rows.last())
            } else {
                None
            },
        }
    }
}

proof fn lemma_first_row_stays(rows: Seq<InfoView>, id: Seq<char>, n: int)
    requires
        0 <= n <= rows.len(),
        first_row(rows.take(n), id) is Some,
    ensures
        first_row(rows, id) == first_row(rows.take(n), id),
    decreases rows.len() - n,
{
    if n < rows.len() {
        assert(rows.take(n + 1).drop_last() == rows.take(n));
        lemma_first_row_stays(rows, id, n + 1);
    } else {
        assert(rows.take(n) == rows);
    }
}

/// The first row of the bind picker with this session id.
pub fn find_row<'a>(rows: &'a Vec<SessionInfo>, id: &str) -> (r: Option<&'a SessionInfo>)
    ensures
        row_of(r) == first_row(host::infos(rows@), id@),
{
    let ghost v = host::infos(rows@);
    let mut i: usize = 0;
    while i < rows.len()
        invariant
            i <= rows@.len(),
            v == host::infos(rows@),
            first_row(v.take(i as int), id@) is None,
        decreases rows@.len() - i,
    {
        assert(v.take(i + 1).drop_last() == v.take(i as int));
        if text::same(rows[i].session_id.as_str(), id) {
            proof {
                lemma_first_row_stays(v, id@, i + 1);
            }
            return Some(&rows[i]);
        }
        i = i + 1;
    }
    assert(v.take(i as int) == v);
    None
}

/// A path is encoded byte by byte: a letter, a digit, a slash and the four marks
/// stand for themselves, and any other byte is a percent sign and its two
/// hexadecimal digits.
pub proof fn lemma_encoded_byte_by_byte(a: Seq<u8>, b: u8)
    ensures
        ({
            let e = encoded(seq![b]);
            let itself = {
                ||| 'a' as u32 <= b <= 'z' as u32
                ||| 'A' as u32 <= b <= 'Z' as u32
                ||| '0' as u32 <= b <= '9' as u32
                ||| b as u32 == '-' as u32
                ||| b as u32 == '.' as u32
                ||| b as u32 == '_' as u32
                ||| b as u32 == '~' as u32
                ||| b as u32 == '/' as u32
            };
            let digits = "0123456789ABCDEF"@;
            &&& itself ==> e == seq![b as char]
            &&& !itself ==> e == seq!['%', digits[b as int / 16], digits[b as int % 16]]
            &&& encoded(a.push(b)) == encoded(a) + e
            &&& encoded(Seq::empty()).len() == 0
        }),
{
    reveal_strlit("0123456789ABCDEF");
    let digits = "0123456789ABCDEF"@;
    assert(digits.len() == 16);
    assert(digits[0] == '0' && digits[1] == '1' && digits[2] == '2' && digits[3] == '3');
    assert(digits[4] == '4' && digits[5] == '5' && digits[6] == '6' && digits[7] == '7');
    assert(digits[8] == '8' && digits[9] == '9' && digits[10] == 'A' && digits[11] == 'B');
    assert(digits[12] == 'C' && digits[13] == 'D' && digits[14] == 'E' && digits[15] == 'F');
    assert forall|d: int| 0 <= d < 16 implies #[trigger] hex_digit(d) == digits[d] by {
        assert(hex_digit(d) as u32 == digits[d] as u32);
    }
    assert(a.push(b).drop_last() =~= a);
    assert(seq![b].drop_last() =~= Seq::<u8>::empty());
    assert(encoded(seq![b].drop_last()) =~= Seq::<char>::empty());
    assert(encoded(seq![b]) =~= escaped(b));
    assert(0 <= b as int / 16 < 16);
    assert(0 <= b as int % 16 < 16);
}

/// A thread of Codex and a chat of WorkBuddy are opened by their id alone; ZCode
/// is opened at the folder of the session, and without one as an application.
pub proof fn lemma_link_of_each_backend(id: Seq<char>, info: Option<InfoView>)
    ensures
        target_of(BackendId::Codex, id, info) == TargetView::Url("codex://threads/"@ + id),
        target_of(BackendId::Workbuddy, id, info) == TargetView::Url("workbuddy://chat/"@ + id),
        (info matches Some(i) && i.workspace_path is Some && i.workspace_path->0.len() > 0
            && i.workspace_path->0 != "(unknown project)"@) ==> target_of(
            BackendId::Zcode,
            id,
            info,
        ) == TargetView::Url(
            "zcode://workspace/open?path="@ + encoded(
                utf8::encode_utf8(info->0.workspace_path->0),
            ),
        ),
        !(info matches Some(i) && i.workspace_path is Some && i.workspace_path->0.len() > 0
            && i.workspace_path->0 != "(unknown project)"@) ==> target_of(
            BackendId::Zcode,
            id,
            info,
        ) == TargetView::App("ZCode"@),
{
}

/// The session on key `i` is that of the first slot with this number; a slot
/// without a backend is ZCode's.
pub proof fn lemma_session_of_the_first_slot(b: BoardStateView, i: usize, k: int)
    requires
        0 <= k <= b.slots.len(),
        forall|j: int| 0 <= j < k ==> (#[trigger] b.slots[j]).i != i,
        k < b.slots.len() ==> b.slots[k].i == i,
    ensures
        ({
            let r = session_on(b, i);
            &&& k == b.slots.len() ==> r == Err::<(BackendId, Seq<char>), Seq<char>>(
                "slot "@ + text::decimal(i as nat) + " not found"@,
            )
            &&& k < b.slots.len() && b.slots[k].session_id is None ==> r == Err::<
                (BackendId, Seq<char>),
                Seq<char>,
            >("empty slot — long-press to bind a session"@)
            &&& k < b.slots.len() && b.slots[k].session_id is Some ==> r is Ok && r->Ok_0.1
                == b.slots[k].session_id->0 && r->Ok_0.0 == (if b.slots[k].backend is Some {
                b.slots[k].backend->0
            } else {
                BackendId::Zcode
            })
        }),
{
    lemma_key_place_is_first(b, i as int, k, b.slots.len() as int);
}

proof fn lemma_key_place_is_first(b: BoardStateView, i: int, k: int, n: int)
    requires
        0 <= k <= b.slots.len(),
        0 <= n <= b.slots.len(),
        forall|j: int| 0 <= j < k ==> (#[trigger] b.slots[j]).i != i,
        k < b.slots.len() ==> b.slots[k].i == i,
    ensures
        key_place(b, i, n) == (if k < n {
            Some(k)
        } else {
            None
        }),
    decreases n,
{
    if n > 0 {
        lemma_key_place_is_first(b, i, k, n - 1);
        if n - 1 < k {
            assert(b.slots[n - 1].i != i);
        }
    }
}

/// The row of a session is the first with its id.
pub proof fn lemma_first_row_is_found(rows: Seq<InfoView>, id: Seq<char>, k: int)
    requires
        0 <= k <= rows.len(),
        forall|j: int| 0 <= j < k ==> (#[trigger] rows[j]).session_id != id,
        k < rows.len() ==> rows[k].session_id == id,
    ensures
        first_row(rows, id) == (if k < rows.len() {
            Some(rows[k])
        } else {
            None
        }),
    decreases rows.len(),
{
    if rows.len() > 0 {
        let t = rows.drop_last();
        let m = if k < t.len() {
            k
        } else {
            t.len() as int
        };
        assert forall|j: int| 0 <= j < m implies (#[trigger] t[j]).session_id != id by {
            assert(rows[j].session_id != id);
        }
        lemma_first_row_is_found(t, id, m);
    }
}

} // verus!
