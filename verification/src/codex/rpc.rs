//! Talking to the Codex app server: where its program is found, the messages
//! sent to it, and which of its messages answers a request.
use crate::json;
use crate::json::{Json, JsonView};
use crate::protocol;
use crate::text;
use vstd::prelude::*;

verus! {

/// How long to wait for an answer, in seconds.
pub const ANSWER_TIMEOUT_SECS: u64 = 5;

/// Why a request failed.
#[derive(Debug, PartialEq)]
pub enum RpcError {
    Io(String),
    Json(String),
    Remote(String),
    Timeout(u64),
    CliNotFound,
    ProcessExited,
}

impl RpcError {
    /// The error in words.
    pub open spec fn words(self) -> Seq<char> {
        match self {
            RpcError::Io(e) => "io: "@ + e@,
            RpcError::Json(e) => "json: "@ + e@,
            RpcError::Remote(e) => "rpc error: "@ + e@,
            RpcError::Timeout(id) => "timeout waiting for response id="@ + text::decimal(id as nat),
            RpcError::CliNotFound => "codex CLI not found"@,
            RpcError::ProcessExited => "process exited"@,
        }
    }

    /// The error in words.
    pub fn message(&self) -> (r: String)
        ensures
            r@ == self.words(),
    {
        let (head, tail): (&str, String) = match self {
            RpcError::Io(e) => ("io: ", e.clone()),
            RpcError::Json(e) => ("json: ", e.clone()),
            RpcError::Remote(e) => ("rpc error: ", e.clone()),
            RpcError::Timeout(id) => ("timeout waiting for response id=", text::to_decimal(*id)),
            RpcError::CliNotFound => ("codex CLI not found", String::new()),
            RpcError::ProcessExited => ("process exited", String::new()),
        };
        let mut s = head.to_string();
        s.append(tail.as_str());
        assert(s@ =~= self.words());
        s
    }
}

/// The kinds of systems that the program is looked for on.
#[derive(Debug, Clone, Copy, PartialEq, Eq, Structural)]
pub enum Platform {
    Mac,
    Windows,
    Other,
}

/// The path of `rel` below the directory `base`, as the platform writes it.
pub open spec fn placed(platform: Platform, base: Seq<char>, rel: Seq<char>) -> Seq<char> {
    if platform is Windows {
        if base.len() == 0 || base.last() == '/' || base.last() == '\\' {
            base + rel
        } else {
            base + "\\"@ + rel
        }
    } else {
        protocol::joined(base, rel)
    }
}

/// The path of `rel` below the directory `base`, as the platform writes it.
fn place(platform: Platform, base: &str, rel: &str) -> (r: String)
    ensures
        r@ == placed(platform, base@, rel@),
{
    if platform != Platform::Windows {
        return protocol::join_path(base, rel);
    }
    let v = text::chars_of(base);
    let mut s = base.to_string();
    if v.len() > 0 && v[v.len() - 1] != '/' && v[v.len() - 1] != '\\' {
        s.append("\\");
    }
    s.append(rel);
    assert(s@ =~= placed(platform, base@, rel@));
    s
}

/// The usual places of the program. On macOS it is part of ChatGPT, on Windows
/// of ChatGPT or of a global npm installation.
pub open spec fn usual_places(
    platform: Platform,
    local_app_data: Option<Seq<char>>,
    app_data: Option<Seq<char>>,
) -> Seq<Seq<char>> {
    match platform {
        Platform::Mac => seq![
            "/Applications/ChatGPT.app/Contents/Resources/codex"@,
            "/usr/local/bin/codex"@,
            "/opt/homebrew/bin/codex"@,
        ],
        Platform::Windows => seq![
            "C:\\Program Files\\ChatGPT\\resources\\codex.exe"@,
            "C:\\Program Files\\ChatGPT\\resources\\codex.cmd"@,
        ] + (match local_app_data {
            Some(d) => seq![placed(platform, d, "Programs\\ChatGPT\\resources\\codex.exe"@)],
            None => Seq::empty(),
        }) + (match app_data {
            Some(d) => seq![placed(platform, d, "npm\\codex.cmd"@)],
            None => Seq::empty(),
        }),
        Platform::Other => seq!["/usr/local/bin/codex"@, "/usr/bin/codex"@],
    }
}

/// The program's name on the search path.
pub open spec fn program_name(platform: Platform) -> Seq<char> {
    if platform is Windows {
        "codex.exe"@
    } else {
        "codex"@
    }
}

/// Where to look for the program, in this order: where the user says, at the
/// usual places, and in the directories of the search path.
pub open spec fn places(
    platform: Platform,
    configured: Option<Seq<char>>,
    local_app_data: Option<Seq<char>>,
    app_data: Option<Seq<char>>,
    search_path: Seq<Seq<char>>,
) -> Seq<Seq<char>> {
    (match configured {
        Some(p) => seq![p],
        None => Seq::empty(),
    }) + usual_places(platform, local_app_data, app_data) + search_path.map_values(
        |d: Seq<char>| placed(platform, d, program_name(platform)),
    )
}

/// Where to look for the program, in this order, given the values of
/// `CODEX_CLI_PATH`, `LOCALAPPDATA`, `APPDATA` and the directories of `PATH`.
pub fn cli_candidates(
    platform: Platform,
    configured: Option<String>,
    local_app_data: Option<String>,
    app_data: Option<String>,
    search_path: &Vec<String>,
) -> (r: Vec<String>)
    ensures
        text::texts(r@) == places(
            platform,
            text::opt(configured),
            text::opt(local_app_data),
            text::opt(app_data),
            text::texts(search_path@),
        ),
{
    let mut out: Vec<String> = Vec::new();
    let ghost conf = text::opt(configured);
    let ghost head = match conf {
        Some(p) => seq![p],
        None => Seq::<Seq<char>>::empty(),
    };
    if let Some(p) = configured {
        out.push(p);
    }
    assert(text::texts(out@) =~= head);
    let ghost usual = usual_places(platform, text::opt(local_app_data), text::opt(app_data));
    match platform {
        Platform::Mac => {
            out.push("/Applications/ChatGPT.app/Contents/Resources/codex".to_string());
            out.push("/usr/local/bin/codex".to_string());
            out.push("/opt/homebrew/bin/codex".to_string());
        },
        Platform::Windows => {
            out.push("C:\\Program Files\\ChatGPT\\resources\\codex.exe".to_string());
            out.push("C:\\Program Files\\ChatGPT\\resources\\codex.cmd".to_string());
            if let Some(d) = &local_app_data {
                out.push(place(platform, d.as_str(), "Programs\\ChatGPT\\resources\\codex.exe"));
            }
            if let Some(d) = &app_data {
                out.push(place(platform, d.as_str(), "npm\\codex.cmd"));
            }
        },
        Platform::Other => {
            out.push("/usr/local/bin/codex".to_string());
            out.push("/usr/bin/codex".to_string());
        },
    }
    let ghost start = head + usual;
    assert(text::texts(out@) =~= start);
    let name: &str = if platform == Platform::Windows {
        "codex.exe"
    } else {
        "codex"
    };
    let ghost dirs = text::texts(search_path@);
    let ghost f = |d: Seq<char>| placed(platform, d, program_name(platform));
    let mut i: usize = 0;
    assert(text::texts(out@) =~= start + dirs.take(0).map_values(f));
    while i < search_path.len()
        invariant
            i <= search_path@.len(),
            name@ == program_name(platform),
            dirs == text::texts(search_path@),
            f == (|d: Seq<char>| placed(platform, d, program_name(platform))),
            text::texts(out@) == start + dirs.take(i as int).map_values(f),
        decreases search_path@.len() - i,
    {
        let ghost had = out@;
        let p = place(platform, search_path[i].as_str(), name);
        assert(p@ == f(dirs[i as int]));
        out.push(p);
        assert(text::texts(out@) =~= text::texts(had).push(f(dirs[i as int])));
        assert(dirs.take(i + 1).map_values(f) =~= dirs.take(i as int).map_values(f).push(
            f(dirs[i as int]),
        ));
        assert(text::texts(out@) =~= start + dirs.take(i + 1).map_values(f));
        i = i + 1;
    }
    assert(dirs.take(i as int) == dirs);
    out
}

/// A request to the app server.
pub open spec fn request_doc(id: u64, method: Seq<char>, params: JsonView) -> JsonView {
    JsonView::Object(
        json::empty_object().insert("jsonrpc"@, JsonView::Text("2.0"@)).insert(
            "id"@,
            JsonView::Number(text::decimal(id as nat)),
        ).insert("method"@, JsonView::Text(method)).insert("params"@, params),
    )
}

/// A request to the app server.
pub fn request_message(id: u64, method: &str, params: Json) -> (r: Json)
    ensures
        r@ == request_doc(id, method@, params@),
{
    json::object4(
        ("jsonrpc", Json::Text("2.0".to_string())),
        ("id", Json::Number(text::to_decimal(id))),
        ("method", Json::Text(method.to_string())),
        ("params", params),
    )
}

/// A notification to the app server.
pub open spec fn notification_doc(method: Seq<char>, params: JsonView) -> JsonView {
    JsonView::Object(
        json::empty_object().insert("jsonrpc"@, JsonView::Text("2.0"@)).insert(
            "method"@,
            JsonView::Text(method),
        ).insert("params"@, params),
    )
}

/// A notification to the app server.
pub fn notification_message(method: &str, params: Json) -> (r: Json)
    ensures
        r@ == notification_doc(method@, params@),
{
    json::object3(
        ("jsonrpc", Json::Text("2.0".to_string())),
        ("method", Json::Text(method.to_string())),
        ("params", params),
    )
}

/// What the deck says of itself when a connection begins.
pub fn client_info() -> (r: Json)
    ensures
        r@ == JsonView::Object(
            json::empty_object().insert(
                "clientInfo"@,
                JsonView::Object(
                    json::empty_object().insert("name"@, JsonView::Text("agent-deck"@)).insert(
                        "version"@,
                        JsonView::Text("0.1.0"@),
                    ),
                ),
            ),
        ),
{
    json::object1(
        (
            "clientInfo",
            json::object2(
                ("name", Json::Text("agent-deck".to_string())),
                ("version", Json::Text("0.1.0".to_string())),
            ),
        ),
    )
}

/// What is read of a message of the app server.
#[derive(Debug)]
pub struct RpcReply {
    pub id: Option<u64>,
    pub method: Option<String>,
    /// The error as JSON text.
    pub error: Option<String>,
}

/// What came when the next line was read.
#[derive(Debug)]
pub enum LineRead {
    /// Nothing: the process has ended.
    Closed,
    /// An empty line, or one that is no message.
    Noise,
    Message(RpcReply),
}

/// What to do with a line.
#[derive(Debug, PartialEq)]
pub enum AwaitStep {
    /// Go on reading.
    Wait,
    /// Give up with this error.
    Fail(RpcError),
    /// This is the answer.
    Answer,
}

/// The message is the answer to request `id`. Messages with a method are
/// events of the server.
pub open spec fn answers(id: u64, m: RpcReply) -> bool {
    m.method is None && m.id == Some(id)
}

/// What to do with a line while request `id` waits for its answer.
pub fn await_step(id: u64, line: &LineRead) -> (r: AwaitStep)
    ensures
        match *line {
            LineRead::Closed => r == AwaitStep::Fail(RpcError::ProcessExited),
            LineRead::Noise => r is Wait,
            LineRead::Message(m) => if !answers(id, m) {
                r is Wait
            } else {
                match m.error {
                    Some(e) => r == AwaitStep::Fail(RpcError::Remote(e)),
                    None => r is Answer,
                }
            },
        },
{
    match line {
        LineRead::Closed => AwaitStep::Fail(RpcError::ProcessExited),
        LineRead::Noise => AwaitStep::Wait,
        LineRead::Message(m) => {
            if m.method.is_some() {
                return AwaitStep::Wait;
            }
            let ours: bool = match m.id {
                Some(x) => x == id,
                None => false,
            };
            if !ours {
                return AwaitStep::Wait;
            }
            match &m.error {
                Some(e) => AwaitStep::Fail(RpcError::Remote(e.clone())),
                None => AwaitStep::Answer,
            }
        },
    }
}

/// A request holds its version, its number, its method and its parameters, and a
/// notification the same but for the number.
pub proof fn lemma_messages_hold_their_fields(id: u64, method: Seq<char>, params: JsonView)
    ensures
        ({
            let r = request_doc(id, method, params);
            let n = notification_doc(method, params);
            &&& r is Object
            &&& r->Object_0.dom() =~= set!["jsonrpc"@, "id"@, "method"@, "params"@]
            &&& r->Object_0["jsonrpc"@] == JsonView::Text("2.0"@)
            &&& r->Object_0["id"@] == JsonView::Number(text::decimal(id as nat))
            &&& r->Object_0["method"@] == JsonView::Text(method)
            &&& r->Object_0["params"@] == params
            &&& n is Object
            &&& n->Object_0 =~= r->Object_0.remove("id"@)
        }),
{
    reveal_strlit("jsonrpc");
    reveal_strlit("id");
    reveal_strlit("method");
    reveal_strlit("params");
    assert("jsonrpc"@[0] == 'j' && "id"@[0] == 'i' && "method"@[0] == 'm');
    assert("params"@[0] == 'p');
}

/// A message answers a request exactly if it has its number and no method of its
/// own.
pub proof fn lemma_answer_has_the_number(id: u64, m: RpcReply)
    ensures
        m.method is Some ==> !answers(id, m),
        m.id is None ==> !answers(id, m),
        m.method is None && m.id is Some ==> (answers(id, m) <==> m.id->0 == id),
{
}

/// The program is looked for where it is configured, then in the usual places of
/// the platform, then in each folder of the search path, in its order.
pub proof fn lemma_places_in_their_order(
    platform: Platform,
    c: Seq<char>,
    local: Option<Seq<char>>,
    roaming: Option<Seq<char>>,
    search_path: Seq<Seq<char>>,
    k: int,
)
    ensures
        ({
            let with = places(platform, Some(c), local, roaming, search_path);
            let without = places(platform, None, local, roaming, search_path);
            let usual = usual_places(platform, local, roaming);
            &&& with == seq![c] + without
            &&& without.len() == usual.len() + search_path.len()
            &&& 0 <= k < usual.len() ==> without[k] == usual[k]
            &&& 0 <= k < search_path.len() ==> without[usual.len() + k] == placed(
                platform,
                search_path[k],
                if platform is Windows {
                    "codex.exe"@
                } else {
                    "codex"@
                },
            )
        }),
{
    let with = places(platform, Some(c), local, roaming, search_path);
    let without = places(platform, None, local, roaming, search_path);
    assert(with =~= seq![c] + without);
}

/// A path is placed below a folder with one separator between them, the one of
/// the platform, unless the folder ends in one or is empty.
pub proof fn lemma_placed_with_one_separator(
    platform: Platform,
    base: Seq<char>,
    rel: Seq<char>,
)
    ensures
        base.len() == 0 || base.last() == '/' ==> placed(platform, base, rel) == base + rel,
        platform is Windows && base.len() > 0 && base.last() == '\\' ==> placed(platform, base, rel)
            == base + rel,
        platform is Windows && base.len() > 0 && base.last() != '\\' && base.last() != '/'
            ==> placed(platform, base, rel) == base + "\\"@ + rel,
        !(platform is Windows) && base.len() > 0 && base.last() != '/' ==> placed(
            platform,
            base,
            rel,
        ) == base + "/"@ + rel,
{
}

/// On Windows the two folders of application data add a place each, where they
/// are known; elsewhere they do not count.
pub proof fn lemma_usual_places(
    platform: Platform,
    local: Option<Seq<char>>,
    roaming: Option<Seq<char>>,
)
    ensures
        ({
            let p = usual_places(platform, local, roaming);
            &&& platform is Mac ==> p == seq![
                "/Applications/ChatGPT.app/Contents/Resources/codex"@,
                "/usr/local/bin/codex"@,
                "/opt/homebrew/bin/codex"@,
            ]
            &&& platform is Other ==> p == seq!["/usr/local/bin/codex"@, "/usr/bin/codex"@]
            &&& platform is Windows ==> {
                &&& p[0] == "C:\\Program Files\\ChatGPT\\resources\\codex.exe"@
                &&& p[1] == "C:\\Program Files\\ChatGPT\\resources\\codex.cmd"@
                &&& p.len() == 2 + (if local is Some {
                    1int
                } else {
                    0
                }) + (if roaming is Some {
                    1int
                } else {
                    0
                })
                &&& local matches Some(d) ==> p[2] == placed(
                    platform,
                    d,
                    "Programs\\ChatGPT\\resources\\codex.exe"@,
                )
                &&& roaming matches Some(d) ==> p.last() == placed(
                    platform,
                    d,
                    "npm\\codex.cmd"@,
                )
            }
        }),
{
}

/// A failure says of what kind it is, and then what was said of it.
pub proof fn lemma_failure_says_its_kind(e: RpcError)
    ensures
        e matches RpcError::Io(m) ==> e.words() == "io: "@ + m@,
        e matches RpcError::Json(m) ==> e.words() == "json: "@ + m@,
        e matches RpcError::Remote(m) ==> e.words() == "rpc error: "@ + m@,
        e matches RpcError::Timeout(id) ==> e.words() == "timeout waiting for response id="@
            + text::decimal(id as nat),
        e is CliNotFound ==> e.words() == "codex CLI not found"@,
        e is ProcessExited ==> e.words() == "process exited"@,
{
}

} // verus!
