//! Messages to and from the program that drives the window in end-to-end runs.
//! Both directions carry one JSON object per line.
use crate::json;
use crate::json::{Json, JsonView};
use crate::text;
use vstd::prelude::*;
use vstd::utf8;

verus! {

/// An object with more fields; a field that it has already is replaced.
pub open spec fn with_fields(m: Map<Seq<char>, JsonView>, extra: Seq<(String, Json)>) -> Map<
    Seq<char>,
    JsonView,
>
    decreases extra.len(),
{
    if extra.len() == 0 {
        m
    } else {
        with_fields(m, extra.drop_last()).insert(extra.last().0@, extra.last().1@)
    }
}

/// A request to the driver.
pub open spec fn request_doc(id: u64, op: Seq<char>, extra: Seq<(String, Json)>) -> JsonView {
    JsonView::Object(
        with_fields(
            json::empty_object().insert("id"@, JsonView::Number(text::decimal(id as nat))).insert(
                "op"@,
                JsonView::Text(op),
            ),
            extra,
        ),
    )
}

/// A request to the driver: its number, what to do, and what that needs to know.
/// Each name stands in it once.
pub fn driver_request(id: u64, op: &str, extra: Vec<(String, Json)>) -> (r: Json)
    ensures
        r@ == request_doc(id, op@, extra@),
        r matches Json::Object(fields) && json::distinct_names(fields@),
{
    let mut fields: Vec<(String, Json)> = Vec::new();
    json::set_field(&mut fields, "id".to_string(), Json::Number(text::to_decimal(id)));
    json::set_field(&mut fields, "op".to_string(), Json::Text(op.to_string()));
    let ghost start = json::field_map(fields@);
    let ghost all = extra@;
    let mut extra = extra;
    let mut rest: Vec<(String, Json)> = Vec::new();
    while extra.len() > 0
        invariant
            rest@.len() + extra@.len() == all.len(),
            extra@ == all.take(extra@.len() as int),
            forall|j: int|
                0 <= j < rest@.len() ==> #[trigger] rest@[j] == all[all.len() - 1 - j],
        decreases extra@.len(),
    {
        if let Some(f) = extra.pop() {
            rest.push(f);
        }
    }
    let ghost mut done: int = 0;
    assert(all.take(0) == Seq::<(String, Json)>::empty());
    while rest.len() > 0
        invariant
            0 <= done,
            rest@.len() + done == all.len(),
            forall|j: int|
                0 <= j < rest@.len() ==> #[trigger] rest@[j] == all[all.len() - 1 - j],
            json::field_map(fields@) == with_fields(start, all.take(done)),
            json::distinct_names(fields@),
        decreases rest@.len(),
    {
        if let Some((name, value)) = rest.pop() {
            assert(all.take(done + 1).drop_last() == all.take(done));
            assert(all.take(done + 1).last() == (name, value));
            json::set_field(&mut fields, name, value);
            proof {
                done = done + 1;
            }
        }
    }
    assert(all.take(done) == all);
    Json::Object(fields)
}

/// The line is the answer to request `id`: an object that bears its number.
pub open spec fn answer_in(line: Seq<char>, id: u64) -> Option<JsonView> {
    let t = text::trimmed(line);
    if t.len() == 0 || t[0] != '{' {
        None
    } else {
        match json::parsed(utf8::encode_utf8(t)) {
            Some(v) => if v.field("id"@) == Some(JsonView::Number(text::decimal(id as nat))) {
                Some(v)
            } else {
                None
            },
            None => None,
        }
    }
}

/// The answer to request `id`, if this line is it. Other lines are noise.
pub fn driver_reply(line: &str, id: u64) -> (r: Option<Json>)
    ensures
        (match r {
            Some(v) => Some(v@),
            None => None,
        }) == answer_in(line@, id),
{
    let t = text::trim(line);
    proof {
        reveal_strlit("{");
        assert("{"@ =~= seq!['{']);
        if t@.len() > 0 {
            assert(t@.take(1) =~= seq![t@[0]]);
            assert(seq![t@[0]][0] == t@[0]);
            assert(seq!['{'][0] == '{');
        }
    }
    if !text::starts_with(t.as_str(), "{") {
        return None;
    }
    match json::parse(t.as_str().as_bytes()) {
        None => None,
        Some(v) => {
            let ours: bool = match v.get("id") {
                Some(Json::Number(n)) => {
                    let want = text::to_decimal(id);
                    text::same(n.as_str(), want.as_str())
                },
                _ => false,
            };
            if ours {
                Some(v)
            } else {
                None
            }
        },
    }
}

/// Whether this field of an answer is true.
pub fn says(reply: &Json, name: &str) -> (r: bool)
    ensures
        r == (reply@.field(name@) == Some(JsonView::Bool(true))),
{
    match reply.get(name) {
        Some(Json::Bool(b)) => *b,
        _ => false,
    }
}

/// The number that an answer counts.
pub open spec fn counted(reply: JsonView) -> Option<nat> {
    match reply.field("count"@) {
        Some(JsonView::Number(t)) => text::number(t),
        _ => None,
    }
}

/// The number that an answer counts; None when it counts nothing, or too much.
pub fn reply_count(reply: &Json) -> (r: Option<usize>)
    ensures
        match r {
            Some(n) => counted(reply@) == Some(n as nat),
            None => counted(reply@) is None || counted(reply@)->0 > usize::MAX,
        },
{
    match reply.get("count") {
        Some(Json::Number(t)) => text::parse_usize(t.as_str()),
        _ => None,
    }
}

/// The text in this field of an answer; empty when there is none.
pub fn reply_text(reply: &Json, name: &str) -> (r: String)
    ensures
        r@ == (match reply@.field(name@) {
            Some(JsonView::Text(t)) => t,
            _ => ""@,
        }),
{
    match reply.get(name) {
        Some(Json::Text(t)) => t.clone(),
        _ => "".to_string(),
    }
}

/// Where the application is found when nothing else is said.
pub const APP_BUNDLE: &'static str = "target/release/bundle/macos/Agent Deck.app";

/// The application to drive: the one named by `AGENT_DECK_APP`, which then has to
/// exist, or the one that was built here.
pub fn resolve_app_path(configured: Option<String>, configured_exists: bool, bundle_exists: bool) -> (r:
    Result<String, String>)
    ensures
        match configured {
            Some(p) => if configured_exists {
                r == Ok::<String, String>(p)
            } else {
                r matches Err(e) && e@ == "AGENT_DECK_APP set but path does not exist: "@ + p@
            },
            None => if bundle_exists {
                r matches Ok(p) && p@ == APP_BUNDLE@
            } else {
                r matches Err(e) && e@ == "App bundle not found at "@ + APP_BUNDLE@
                    + ". Run `pnpm build:desktop` (cargo tauri build) first, or set AGENT_DECK_APP to an existing .app path."@
            },
        },
{
    match configured {
        Some(p) => {
            if configured_exists {
                return Ok(p);
            }
            let mut e = "AGENT_DECK_APP set but path does not exist: ".to_string();
            e.append(p.as_str());
            Err(e)
        },
        None => {
            if bundle_exists {
                return Ok(APP_BUNDLE.to_string());
            }
            let mut e = "App bundle not found at ".to_string();
            e.append(APP_BUNDLE);
            e.append(
                ". Run `pnpm build:desktop` (cargo tauri build) first, or set AGENT_DECK_APP to an existing .app path.",
            );
            Err(e)
        },
    }
}

proof fn lemma_last_field_counts(
    m: Map<Seq<char>, JsonView>,
    extra: Seq<(String, Json)>,
    name: Seq<char>,
    i: int,
)
    requires
        -1 <= i < extra.len(),
        forall|j: int| i < j < extra.len() ==> (#[trigger] extra[j]).0@ != name,
        i >= 0 ==> extra[i].0@ == name,
    ensures
        i >= 0 ==> with_fields(m, extra).contains_key(name) && with_fields(m, extra)[name]
            == extra[i].1@,
        i < 0 ==> with_fields(m, extra).contains_key(name) == m.contains_key(name) && with_fields(
            m,
            extra,
        )[name] == m[name],
    decreases extra.len(),
{
    if extra.len() > 0 && i < extra.len() - 1 {
        let t = extra.drop_last();
        assert forall|j: int| i < j < t.len() implies (#[trigger] t[j]).0@ != name by {
            assert(t[j] == extra[j]);
        }
        lemma_last_field_counts(m, t, name, i);
        assert(extra[extra.len() - 1].0@ != name);
    }
}

/// A request holds its number, its operation and the further fields; of several
/// under one name the last counts, and there are no others.
pub proof fn lemma_request_holds_its_fields(
    id: u64,
    op: Seq<char>,
    extra: Seq<(String, Json)>,
    name: Seq<char>,
    i: int,
)
    requires
        -1 <= i < extra.len(),
        forall|j: int| i < j < extra.len() ==> (#[trigger] extra[j]).0@ != name,
        i >= 0 ==> extra[i].0@ == name,
    ensures
        ({
            let r = request_doc(id, op, extra);
            &&& r is Object
            &&& i >= 0 ==> r->Object_0.contains_key(name) && r->Object_0[name] == extra[i].1@
            &&& i < 0 && name == "id"@ ==> r->Object_0.contains_key(name) && r->Object_0[name]
                == JsonView::Number(text::decimal(id as nat))
            &&& i < 0 && name == "op"@ ==> r->Object_0.contains_key(name) && r->Object_0[name]
                == JsonView::Text(op)
            &&& i < 0 && name != "id"@ && name != "op"@ ==> !r->Object_0.contains_key(name)
        }),
{
    reveal_strlit("id");
    reveal_strlit("op");
    assert("id"@[0] == 'i' && "op"@[0] == 'o');
    lemma_last_field_counts(
        json::empty_object().insert("id"@, JsonView::Number(text::decimal(id as nat))).insert(
            "op"@,
            JsonView::Text(op),
        ),
        extra,
        name,
        i,
    );
}

/// A line answers a request exactly if, without the white space around it, it
/// starts as an object, is a document and holds the number of the request.
pub proof fn lemma_answer_has_the_number(line: Seq<char>, id: u64)
    ensures
        ({
            let t = text::trimmed(line);
            let v = json::parsed(utf8::encode_utf8(t));
            let whole = {
                &&& t.len() > 0
                &&& t[0] == '{'
                &&& v is Some
                &&& v->0 is Object
                &&& v->0->Object_0.contains_key("id"@)
                &&& v->0->Object_0["id"@] == JsonView::Number(text::decimal(id as nat))
            };
            &&& answer_in(line, id) is Some <==> whole
            &&& whole ==> answer_in(line, id) == v
        }),
{
}

/// A count is the number under its name.
pub proof fn lemma_count_is_the_number(v: JsonView)
    ensures
        counted(v) is Some ==> v is Object && v->Object_0.contains_key("count"@)
            && v->Object_0["count"@] is Number,
        v is Object && v->Object_0.contains_key("count"@) && v->Object_0["count"@] is Number
            ==> counted(v) == text::number(v->Object_0["count"@]->Number_0),
{
}

} // verus!
