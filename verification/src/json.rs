//! JSON documents as plain values, read and written by `serde_json`.
use crate::text;
use serde_json::Value;
use vstd::prelude::*;

verus! {

/// A JSON document. A number is kept as its decimal text.
#[derive(Debug, PartialEq)]
pub enum Json {
    Null,
    Bool(bool),
    Number(String),
    Text(String),
    List(Vec<Json>),
    Object(Vec<(String, Json)>),
}

/// The content of a JSON document. Of several fields with one name the last counts.
#[verifier::ext_equal]
pub enum JsonView {
    Null,
    Bool(bool),
    Number(Seq<char>),
    Text(Seq<char>),
    List(Seq<JsonView>),
    Object(Map<Seq<char>, JsonView>),
}

/// The content of a document.
pub open spec fn content(v: Json) -> JsonView
    decreases v,
{
    match v {
        Json::Null => JsonView::Null,
        Json::Bool(b) => JsonView::Bool(b),
        Json::Number(t) => JsonView::Number(t@),
        Json::Text(t) => JsonView::Text(t@),
        Json::List(items) => JsonView::List(contents(items@)),
        Json::Object(fields) => JsonView::Object(field_map(fields@)),
    }
}

/// The contents of a list of documents.
pub open spec fn contents(s: Seq<Json>) -> Seq<JsonView>
    decreases s,
{
    if s.len() == 0 {
        Seq::empty()
    } else {
        contents(s.drop_last()).push(content(s.last()))
    }
}

/// The fields of an object by name.
pub open spec fn field_map(s: Seq<(String, Json)>) -> Map<Seq<char>, JsonView>
    decreases s,
{
    if s.len() == 0 {
        Map::empty()
    } else {
        field_map(s.drop_last()).insert(s.last().0@, content(s.last().1))
    }
}

impl View for Json {
    type V = JsonView;

    open spec fn view(&self) -> JsonView {
        content(*self)
    }
}

proof fn lemma_contents(s: Seq<Json>)
    ensures
        contents(s).len() == s.len(),
        forall|i: int| 0 <= i < s.len() ==> #[trigger] contents(s)[i] == content(s[i]),
    decreases s.len(),
{
    if s.len() > 0 {
        lemma_contents(s.drop_last());
    }
}

impl JsonView {
    /// The field `name` of an object.
    pub open spec fn field(self, name: Seq<char>) -> Option<JsonView> {
        match self {
            JsonView::Object(m) => if m.contains_key(name) {
                Some(m[name])
            } else {
                None
            },
            _ => None,
        }
    }

    /// The text of a string.
    pub open spec fn as_text(self) -> Option<Seq<char>> {
        match self {
            JsonView::Text(t) => Some(t),
            _ => None,
        }
    }

    /// The truth value of a boolean.
    pub open spec fn as_truth(self) -> Option<bool> {
        match self {
            JsonView::Bool(b) => Some(b),
            _ => None,
        }
    }

    /// The texts of a list that holds nothing but strings.
    pub open spec fn as_texts(self) -> Option<Seq<Seq<char>>> {
        match self {
            JsonView::List(items) => if forall|i: int|
                0 <= i < items.len() ==> (#[trigger] items[i]) is Text {
                Some(items.map_values(|x: JsonView| x->Text_0))
            } else {
                None
            },
            _ => None,
        }
    }
}

impl Json {
    /// The field `name` of an object.
    pub fn get(&self, name: &str) -> (r: Option<&Json>)
        ensures
            (match r {
                Some(x) => Some(x@),
                None => None,
            }) == self@.field(name@),
    {
        match self {
            Json::Object(fields) => {
                let mut n: usize = fields.len();
                assert(fields@.take(n as int) == fields@);
                while n > 0
                    invariant
                        n <= fields@.len(),
                        self@ == JsonView::Object(field_map(fields@)),
                        self@.field(name@) == JsonView::Object(
                            field_map(fields@.take(n as int)),
                        ).field(name@),
                    decreases n,
                {
                    assert(fields@.take(n as int).drop_last() == fields@.take(n - 1));
                    assert(fields@.take(n as int).last() == fields@[n - 1]);
                    if text::same(fields[n - 1].0.as_str(), name) {
                        return Some(&fields[n - 1].1);
                    }
                    n = n - 1;
                }
                None
            },
            _ => None,
        }
    }

    /// The text of a string.
    pub fn as_str(&self) -> (r: Option<&String>)
        ensures
            (match r {
                Some(x) => Some(x@),
                None => None,
            }) == self@.as_text(),
    {
        match self {
            Json::Text(t) => Some(t),
            _ => None,
        }
    }

    /// The truth value of a boolean.
    pub fn as_bool(&self) -> (r: Option<bool>)
        ensures
            r == self@.as_truth(),
    {
        match self {
            Json::Bool(b) => Some(*b),
            _ => None,
        }
    }

    /// The texts of a list that holds nothing but strings.
    pub fn as_strings(&self) -> (r: Option<Vec<String>>)
        ensures
            (match r {
                Some(v) => Some(v@.map_values(|x: String| x@)),
                None => None,
            }) == self@.as_texts(),
    {
        match self {
            Json::List(items) => {
                proof {
                    lemma_contents(items@);
                }
                let ghost views = contents(items@);
                let mut out: Vec<String> = Vec::new();
                let mut i: usize = 0;
                while i < items.len()
                    invariant
                        i <= items@.len(),
                        self@ == JsonView::List(views),
                        views.len() == items@.len(),
                        out@.len() == i,
                        forall|j: int|
                            0 <= j < items@.len() ==> #[trigger] views[j] == content(items@[j]),
                        forall|j: int|
                            0 <= j < i ==> (#[trigger] views[j]) is Text && out@[j]@
                                == views[j]->Text_0,
                    decreases items@.len() - i,
                {
                    assert(views[i as int] == content(items@[i as int]));
                    match &items[i] {
                        Json::Text(t) => {
                            out.push(t.clone());
                        },
                        _ => {
                            assert(!(views[i as int] is Text));
                            return None;
                        },
                    }
                    i = i + 1;
                }
                assert(out@.map_values(|x: String| x@) =~= views.map_values(
                    |x: JsonView| x->Text_0,
                ));
                Some(out)
            },
            _ => None,
        }
    }
}

/// A whole number in its usual decimal form.
pub open spec fn is_whole(t: Seq<char>) -> bool {
    ||| exists|n: nat| n <= u64::MAX && t == #[trigger] text::decimal(n)
    ||| exists|n: nat| 0 < n <= 0x8000_0000_0000_0000 && t == "-"@ + #[trigger] text::decimal(n)
}

/// The document holds whole numbers only and is nested at most `depth` deep.
pub open spec fn simple(v: JsonView, depth: nat) -> bool
    decreases depth,
{
    match v {
        JsonView::Number(t) => is_whole(t),
        JsonView::List(items) => depth > 0 && forall|i: int|
            0 <= i < items.len() ==> simple(#[trigger] items[i], (depth - 1) as nat),
        JsonView::Object(m) => depth > 0 && forall|k: Seq<char>| #[trigger]
            m.contains_key(k) ==> simple(m[k], (depth - 1) as nat),
        _ => true,
    }
}

/// The document is nested at most `depth` deep.
pub open spec fn within(v: JsonView, depth: nat) -> bool
    decreases depth,
{
    match v {
        JsonView::List(items) => depth > 0 && forall|i: int|
            0 <= i < items.len() ==> within(#[trigger] items[i], (depth - 1) as nat),
        JsonView::Object(m) => depth > 0 && forall|k: Seq<char>| #[trigger]
            m.contains_key(k) ==> within(m[k], (depth - 1) as nat),
        _ => true,
    }
}

/// The document, fields of an earlier value and all, is nested at most `depth` deep.
pub open spec fn nested_within(v: Json, depth: nat) -> bool
    decreases depth,
{
    match v {
        Json::List(items) => depth > 0 && forall|i: int|
            0 <= i < items@.len() ==> nested_within(#[trigger] items@[i], (depth - 1) as nat),
        Json::Object(fields) => depth > 0 && forall|i: int|
            0 <= i < fields@.len() ==> nested_within(
                (#[trigger] fields@[i]).1,
                (depth - 1) as nat,
            ),
        _ => true,
    }
}

proof fn lemma_nested_item(items: Vec<Json>, depth: nat, i: int)
    requires
        0 <= i < items@.len(),
        depth > 0,
        !nested_within(items@[i], (depth - 1) as nat),
    ensures
        !nested_within(Json::List(items), depth),
{
    let v = Json::List(items);
    if nested_within(v, depth) {
        assert(nested_within(v->List_0@[i], (depth - 1) as nat));
    }
}

proof fn lemma_nested_field(fields: Vec<(String, Json)>, depth: nat, i: int)
    requires
        0 <= i < fields@.len(),
        depth > 0,
        !nested_within(fields@[i].1, (depth - 1) as nat),
    ensures
        !nested_within(Json::Object(fields), depth),
{
    let v = Json::Object(fields);
    if nested_within(v, depth) {
        assert(nested_within(v->Object_0@[i].1, (depth - 1) as nat));
    }
}

/// Whether the document, fields of an earlier value and all, is nested at most
/// `depth` deep.
pub fn is_nested_within(v: &Json, depth: usize) -> (r: bool)
    ensures
        r == nested_within(*v, depth as nat),
    decreases depth,
{
    match v {
        Json::List(items) => {
            if depth == 0 {
                return false;
            }
            let mut i: usize = 0;
            while i < items.len()
                invariant
                    i <= items@.len(),
                    depth > 0,
                    *v == Json::List(*items),
                    forall|j: int|
                        0 <= j < i ==> nested_within(#[trigger] items@[j], (depth - 1) as nat),
                decreases items@.len() - i,
            {
                if !is_nested_within(&items[i], depth - 1) {
                    proof {
                        lemma_nested_item(*items, depth as nat, i as int);
                    }
                    return false;
                }
                i = i + 1;
            }
            true
        },
        Json::Object(fields) => {
            if depth == 0 {
                return false;
            }
            let mut i: usize = 0;
            while i < fields.len()
                invariant
                    i <= fields@.len(),
                    depth > 0,
                    *v == Json::Object(*fields),
                    forall|j: int|
                        0 <= j < i ==> nested_within(
                            (#[trigger] fields@[j]).1,
                            (depth - 1) as nat,
                        ),
                decreases fields@.len() - i,
            {
                if !is_nested_within(&fields[i].1, depth - 1) {
                    proof {
                        lemma_nested_field(*fields, depth as nat, i as int);
                    }
                    return false;
                }
                i = i + 1;
            }
            true
        },
        _ => true,
    }
}

/// The document, fields of an earlier value and all, holds whole numbers only.
pub open spec fn all_whole(v: Json) -> bool
    decreases v,
{
    match v {
        Json::Number(t) => is_whole(t@),
        Json::List(items) => each_whole(items@),
        Json::Object(fields) => fields_whole(fields@),
        _ => true,
    }
}

/// The documents hold whole numbers only.
pub open spec fn each_whole(s: Seq<Json>) -> bool
    decreases s,
{
    s.len() == 0 || (each_whole(s.drop_last()) && all_whole(s.last()))
}

/// The fields hold whole numbers only.
pub open spec fn fields_whole(s: Seq<(String, Json)>) -> bool
    decreases s,
{
    s.len() == 0 || (fields_whole(s.drop_last()) && all_whole(s.last().1))
}

proof fn lemma_each_whole(s: Seq<Json>, n: int)
    requires
        each_whole(s),
        0 <= n < s.len(),
    ensures
        all_whole(s[n]),
    decreases s.len(),
{
    if n < s.len() - 1 {
        lemma_each_whole(s.drop_last(), n);
    }
}

proof fn lemma_fields_whole(s: Seq<(String, Json)>, n: int)
    requires
        fields_whole(s),
        0 <= n < s.len(),
    ensures
        all_whole(s[n].1),
    decreases s.len(),
{
    if n < s.len() - 1 {
        lemma_fields_whole(s.drop_last(), n);
    }
}

/// How deep a document may be nested that is to be written: `serde_json` reads
/// none that is nested deeper.
pub const MAX_DEPTH: usize = 127;

/// `serde_json::Value`, a JSON document of `serde_json`.
#[verifier::external_type_specification]
#[verifier::external_body]
pub struct ExValue(serde_json::Value);

/// What a `serde_json::Value` holds.
pub uninterp spec fn held(v: Value) -> JsonView;

/// What `serde_json::from_slice` reads from bytes; None when they are no JSON document.
pub uninterp spec fn parsed(bytes: Seq<u8>) -> Option<JsonView>;

/// The text that a number has once `serde_json::Number` has read it from this
/// one; None when it reads no number.
pub uninterp spec fn number_text(t: Seq<char>) -> Option<Seq<char>>;

/// What `serde_json::to_vec` writes for a document; None when it fails.
pub uninterp spec fn written(v: JsonView) -> Option<Seq<u8>>;

/// The variants of `serde_json::Value`, one for one; a number as the text that
/// its `Display` gives.
#[verifier::external_body]
fn from_value(v: Value) -> (r: Json)
    ensures
        r@ == held(v),
{
    match v {
        Value::Null => Json::Null,
        Value::Bool(b) => Json::Bool(b),
        Value::Number(n) => Json::Number(n.to_string()),
        Value::String(s) => Json::Text(s),
        Value::Array(a) => Json::List(a.into_iter().map(from_value).collect()),
        Value::Object(m) => Json::Object(m.into_iter().map(|(k, x)| (k, from_value(x))).collect()),
    }
}

/// `serde_json::Value::Null`, which holds null.
#[verifier::external_body]
fn value_null() -> (r: Value)
    ensures
        held(r) == JsonView::Null,
{
    Value::Null
}

/// `serde_json::Value::Bool`, which holds the truth value.
#[verifier::external_body]
fn value_bool(b: bool) -> (r: Value)
    ensures
        held(r) == JsonView::Bool(b),
{
    Value::Bool(b)
}

/// `serde_json::Value::String`, which holds the text.
#[verifier::external_body]
fn value_text(t: &String) -> (r: Value)
    ensures
        held(r) == JsonView::Text(t@),
{
    Value::String(t.clone())
}

/// The `FromStr` of `serde_json::Number`. A whole number that fits 64 bits keeps
/// its text.
#[verifier::external_body]
fn value_number(t: &String) -> (r: Option<Value>)
    ensures
        (match r {
            Some(x) => Some(held(x)),
            None => None,
        }) == (match number_text(t@) {
            Some(n) => Some(JsonView::Number(n)),
            None => None,
        }),
        is_whole(t@) ==> r is Some && held(r->0) == JsonView::Number(t@),
{
    t.parse().ok().map(Value::Number)
}

/// What the values of a list hold.
pub open spec fn helds(s: Seq<Value>) -> Seq<JsonView> {
    s.map_values(|x: Value| held(x))
}

/// `serde_json::Value::Array`, which holds the items in their order.
#[verifier::external_body]
fn value_list(items: Vec<Value>) -> (r: Value)
    ensures
        held(r) == JsonView::List(helds(items@)),
{
    Value::Array(items)
}

/// No two fields have one name.
pub open spec fn distinct_fields(s: Seq<(String, Value)>) -> bool {
    forall|i: int, j: int| 0 <= i < j < s.len() ==> (#[trigger] s[i]).0@ != (#[trigger] s[j]).0@
}

/// The object has these fields and no others.
pub open spec fn made_of(m: Map<Seq<char>, JsonView>, s: Seq<(String, Value)>) -> bool {
    &&& forall|i: int|
        0 <= i < s.len() ==> m.contains_key((#[trigger] s[i]).0@) && m[s[i].0@] == held(s[i].1)
    &&& forall|k: Seq<char>| #[trigger]
        m.contains_key(k) ==> exists|i: int| 0 <= i < s.len() && (#[trigger] s[i]).0@ == k
}

/// `serde_json::Value::Object` of the `serde_json::Map` that the fields are
/// collected into, which holds each field under its name.
#[verifier::external_body]
fn value_object(fields: Vec<(String, Value)>) -> (r: Value)
    requires
        distinct_fields(fields@),
    ensures
        held(r) is Object,
        made_of(held(r)->Object_0, fields@),
{
    Value::Object(fields.into_iter().collect())
}

/// Sets a field, in the place of one that has its name.
fn put_field(
    fields: &mut Vec<(String, Value)>,
    name: &String,
    value: Value,
    Ghost(m): Ghost<Map<Seq<char>, JsonView>>,
)
    requires
        distinct_fields(old(fields)@),
        made_of(m, old(fields)@),
    ensures
        distinct_fields(final(fields)@),
        made_of(m.insert(name@, held(value)), final(fields)@),
{
    let ghost had = fields@;
    let ghost next = m.insert(name@, held(value));
    let mut i: usize = 0;
    while i < fields.len()
        invariant
            i <= fields@.len(),
            fields@ == had,
            forall|j: int| 0 <= j < i ==> (#[trigger] had[j]).0@ != name@,
        ensures
            i < fields@.len() ==> had[i as int].0@ == name@,
        decreases fields@.len() - i,
    {
        if text::same(fields[i].0.as_str(), name.as_str()) {
            break;
        }
        i = i + 1;
    }
    if i < fields.len() {
        let field = (name.clone(), value);
        fields[i] = field;
        assert(fields@ == had.update(i as int, field));
        proof {
            assert forall|k: Seq<char>| #[trigger] next.contains_key(k) implies exists|j: int|
                0 <= j < fields@.len() && (#[trigger] fields@[j]).0@ == k by {
                if k == name@ {
                    assert(fields@[i as int].0@ == k);
                } else {
                    assert(m.contains_key(k));
                    let j = choose|j: int| 0 <= j < had.len() && (#[trigger] had[j]).0@ == k;
                    assert(fields@[j].0@ == k);
                }
            }
        }
    } else {
        let field = (name.clone(), value);
        fields.push(field);
        assert(fields@ == had.push(field));
        proof {
            assert forall|k: Seq<char>| #[trigger] next.contains_key(k) implies exists|j: int|
                0 <= j < fields@.len() && (#[trigger] fields@[j]).0@ == k by {
                if k == name@ {
                    assert(fields@[had.len() as int].0@ == k);
                } else {
                    assert(m.contains_key(k));
                    let j = choose|j: int| 0 <= j < had.len() && (#[trigger] had[j]).0@ == k;
                    assert(fields@[j].0@ == k);
                }
            }
        }
    }
}

/// What becomes of a document as a `serde_json::Value`; None when the text of a
/// number, of a field of an earlier value too, is none for `serde_json`.
pub open spec fn settled(v: Json) -> Option<JsonView>
    decreases v,
{
    match v {
        Json::Null => Some(JsonView::Null),
        Json::Bool(b) => Some(JsonView::Bool(b)),
        Json::Number(t) => match number_text(t@) {
            Some(n) => Some(JsonView::Number(n)),
            None => None,
        },
        Json::Text(t) => Some(JsonView::Text(t@)),
        Json::List(items) => match settled_items(items@) {
            Some(s) => Some(JsonView::List(s)),
            None => None,
        },
        Json::Object(fields) => match settled_fields(fields@) {
            Some(m) => Some(JsonView::Object(m)),
            None => None,
        },
    }
}

/// What becomes of the items of a list.
pub open spec fn settled_items(s: Seq<Json>) -> Option<Seq<JsonView>>
    decreases s,
{
    if s.len() == 0 {
        Some(Seq::empty())
    } else {
        match (settled_items(s.drop_last()), settled(s.last())) {
            (Some(a), Some(x)) => Some(a.push(x)),
            _ => None,
        }
    }
}

/// What becomes of the fields of an object.
pub open spec fn settled_fields(s: Seq<(String, Json)>) -> Option<Map<Seq<char>, JsonView>>
    decreases s,
{
    if s.len() == 0 {
        Some(Map::empty())
    } else {
        match (settled_fields(s.drop_last()), settled(s.last().1)) {
            (Some(m), Some(x)) => Some(m.insert(s.last().0@, x)),
            _ => None,
        }
    }
}

proof fn lemma_unsettled_items(s: Seq<Json>, n: int)
    requires
        0 <= n <= s.len(),
        settled_items(s.take(n)) is None,
    ensures
        settled_items(s) is None,
    decreases s.len() - n,
{
    if n < s.len() {
        assert(s.take(n + 1).drop_last() == s.take(n));
        lemma_unsettled_items(s, n + 1);
    } else {
        assert(s.take(n) == s);
    }
}

proof fn lemma_unsettled_fields(s: Seq<(String, Json)>, n: int)
    requires
        0 <= n <= s.len(),
        settled_fields(s.take(n)) is None,
    ensures
        settled_fields(s) is None,
    decreases s.len() - n,
{
    if n < s.len() {
        assert(s.take(n + 1).drop_last() == s.take(n));
        lemma_unsettled_fields(s, n + 1);
    } else {
        assert(s.take(n) == s);
    }
}

/// The document is held as it is, at most this deep, with whole numbers only.
spec fn kept_as(x: Value, v: JsonView, depth: nat) -> bool {
    held(x) == v && simple(held(x), depth)
}

/// The document as a `serde_json::Value`; None when the text of a number is none
/// for `serde_json`.
fn to_value(v: &Json, Ghost(depth): Ghost<nat>) -> (r: Option<Value>)
    requires
        nested_within(*v, depth),
    ensures
        (match r {
            Some(x) => Some(held(x)),
            None => None,
        }) == settled(*v),
        r matches Some(x) ==> within(held(x), depth),
        all_whole(*v) ==> r is Some && kept_as(r->0, v@, depth),
    decreases depth, 1nat,
{
    match v {
        Json::Null => Some(value_null()),
        Json::Bool(b) => Some(value_bool(*b)),
        Json::Number(t) => value_number(t),
        Json::Text(t) => Some(value_text(t)),
        Json::List(items) => to_list(items, Ghost(depth)),
        Json::Object(fields) => to_object(fields, Ghost(depth)),
    }
}

/// A list as a `serde_json::Value`.
fn to_list(items: &Vec<Json>, Ghost(depth): Ghost<nat>) -> (r: Option<Value>)
    requires
        nested_within(Json::List(*items), depth),
    ensures
        (match r {
            Some(x) => Some(held(x)),
            None => None,
        }) == settled(Json::List(*items)),
        r matches Some(x) ==> within(held(x), depth),
        each_whole(items@) ==> r is Some && kept_as(
            r->0,
            JsonView::List(contents(items@)),
            depth,
        ),
    decreases depth, 0nat,
{
    let ghost below = (depth - 1) as nat;
    let mut out: Vec<Value> = Vec::new();
    let mut i: usize = 0;
    assert(items@.take(0) == Seq::<Json>::empty());
    assert(helds(out@) == Seq::<JsonView>::empty());
    while i < items.len()
        invariant
            i <= items@.len(),
            depth > 0,
            below == depth - 1,
            nested_within(Json::List(*items), depth),
            settled_items(items@.take(i as int)) == Some(helds(out@)),
            out@.len() == i,
            forall|j: int| 0 <= j < i ==> within(held(#[trigger] out@[j]), below),
            each_whole(items@) ==> helds(out@) == contents(items@.take(i as int)) && forall|j: int|
                0 <= j < i ==> simple(held(#[trigger] out@[j]), below),
        decreases items@.len() - i,
    {
        let ghost had = out@;
        assert(items@.take(i + 1).drop_last() == items@.take(i as int));
        assert(items@.take(i + 1).last() == items@[i as int]);
        proof {
            if each_whole(items@) {
                lemma_each_whole(items@, i as int);
            }
        }
        match to_value(&items[i], Ghost(below)) {
            Some(x) => {
                out.push(x);
                assert(helds(out@) == helds(had).push(held(x)));
            },
            None => {
                proof {
                    lemma_unsettled_items(items@, i + 1);
                }
                return None;
            },
        }
        i = i + 1;
    }
    assert(items@.take(i as int) == items@);
    let ghost all = out@;
    let r = value_list(out);
    proof {
        assert forall|j: int| 0 <= j < helds(all).len() implies within(
            #[trigger] helds(all)[j],
            below,
        ) by {
            assert(helds(all)[j] == held(all[j]));
        }
        if each_whole(items@) {
            assert forall|j: int| 0 <= j < helds(all).len() implies simple(
                #[trigger] helds(all)[j],
                below,
            ) by {
                assert(helds(all)[j] == held(all[j]));
            }
        }
    }
    Some(r)
}

/// An object as a `serde_json::Value`.
fn to_object(fields: &Vec<(String, Json)>, Ghost(depth): Ghost<nat>) -> (r: Option<Value>)
    requires
        nested_within(Json::Object(*fields), depth),
    ensures
        (match r {
            Some(x) => Some(held(x)),
            None => None,
        }) == settled(Json::Object(*fields)),
        r matches Some(x) ==> within(held(x), depth),
        fields_whole(fields@) ==> r is Some && kept_as(
            r->0,
            JsonView::Object(field_map(fields@)),
            depth,
        ),
    decreases depth, 0nat,
{
    let ghost below = (depth - 1) as nat;
    let mut out: Vec<(String, Value)> = Vec::new();
    let ghost mut m: Map<Seq<char>, JsonView> = Map::empty();
    let mut i: usize = 0;
    assert(fields@.take(0) == Seq::<(String, Json)>::empty());
    while i < fields.len()
        invariant
            i <= fields@.len(),
            depth > 0,
            below == depth - 1,
            nested_within(Json::Object(*fields), depth),
            settled_fields(fields@.take(i as int)) == Some(m),
            distinct_fields(out@),
            made_of(m, out@),
            forall|k: Seq<char>| #[trigger] m.contains_key(k) ==> within(m[k], below),
            fields_whole(fields@) ==> m == field_map(fields@.take(i as int)) && forall|
                k: Seq<char>,
            | #[trigger] m.contains_key(k) ==> simple(m[k], below),
        decreases fields@.len() - i,
    {
        assert(fields@.take(i + 1).drop_last() == fields@.take(i as int));
        assert(fields@.take(i + 1).last() == fields@[i as int]);
        proof {
            if fields_whole(fields@) {
                lemma_fields_whole(fields@, i as int);
            }
        }
        match to_value(&fields[i].1, Ghost(below)) {
            Some(x) => {
                let ghost next = m.insert(fields@[i as int].0@, held(x));
                put_field(&mut out, &fields[i].0, x, Ghost(m));
                proof {
                    m = next;
                }
            },
            None => {
                proof {
                    lemma_unsettled_fields(fields@, i + 1);
                }
                return None;
            },
        }
        i = i + 1;
    }
    assert(fields@.take(i as int) == fields@);
    let ghost all = out@;
    let r = value_object(out);
    proof {
        let got = held(r)->Object_0;
        assert(got =~= m) by {
            assert forall|k: Seq<char>| got.contains_key(k) implies m.contains_key(k) && got[k]
                == m[k] by {
                let j = choose|j: int| 0 <= j < all.len() && (#[trigger] all[j]).0@ == k;
                assert(m.contains_key(all[j].0@));
            }
            assert forall|k: Seq<char>| m.contains_key(k) implies got.contains_key(k) by {
                let j = choose|j: int| 0 <= j < all.len() && (#[trigger] all[j]).0@ == k;
                assert(got.contains_key(all[j].0@));
            }
        }
    }
    Some(r)
}

/// `serde_json::from_slice`: the document that bytes stand for.
#[verifier::external_body]
fn read_value(bytes: &[u8]) -> (r: Option<Value>)
    ensures
        (match r {
            Some(x) => Some(held(x)),
            None => None,
        }) == parsed(bytes@),
{
    serde_json::from_slice(bytes).ok()
}

/// `serde_json::to_vec`: the bytes of a document, at least one. A document with
/// whole numbers only, nested less deep than the 128 levels at which reading
/// stops, is written without failure and read back as it was.
#[verifier::external_body]
fn write_value(v: &Value) -> (r: Option<Vec<u8>>)
    requires
        within(held(*v), MAX_DEPTH as nat),
    ensures
        (match r {
            Some(b) => Some(b@),
            None => None,
        }) == written(held(*v)),
        r matches Some(b) ==> b@.len() > 0,
        simple(held(*v), MAX_DEPTH as nat) ==> r is Some && parsed(r->0@) == Some(held(*v)),
{
    serde_json::to_vec(v).ok()
}

/// The document that bytes stand for; None when they are no JSON document.
pub fn parse(bytes: &[u8]) -> (r: Option<Json>)
    ensures
        (match r {
            Some(x) => Some(x@),
            None => None,
        }) == parsed(bytes@),
{
    match read_value(bytes) {
        Some(v) => Some(from_value(v)),
        None => None,
    }
}

/// The bytes of a document; None when it cannot be written.
pub open spec fn serialized(v: Json) -> Option<Seq<u8>> {
    match settled(v) {
        Some(x) => written(x),
        None => None,
    }
}

/// The bytes of a document. One with whole numbers only is always written, and
/// reading the bytes gives it back.
pub fn serialize(v: &Json) -> (r: Option<Vec<u8>>)
    requires
        nested_within(*v, MAX_DEPTH as nat),
    ensures
        (match r {
            Some(b) => Some(b@),
            None => None,
        }) == serialized(*v),
        r matches Some(b) ==> b@.len() > 0,
        all_whole(*v) ==> r is Some && parsed(r->0@) == Some(v@),
{
    match to_value(v, Ghost(MAX_DEPTH as nat)) {
        Some(x) => write_value(&x),
        None => None,
    }
}

/// An object without fields.
pub open spec fn empty_object() -> Map<Seq<char>, JsonView> {
    Map::empty()
}

/// An object with one field.
pub fn object1(a: (&str, Json)) -> (r: Json)
    ensures
        r@ == JsonView::Object(empty_object().insert(a.0@, a.1@)),
{
    let mut fields: Vec<(String, Json)> = Vec::new();
    push_field(&mut fields, a);
    Json::Object(fields)
}

/// An object with two fields.
pub fn object2(a: (&str, Json), b: (&str, Json)) -> (r: Json)
    ensures
        r@ == JsonView::Object(empty_object().insert(a.0@, a.1@).insert(b.0@, b.1@)),
{
    let mut fields: Vec<(String, Json)> = Vec::new();
    push_field(&mut fields, a);
    push_field(&mut fields, b);
    Json::Object(fields)
}

/// An object with three fields.
pub fn object3(a: (&str, Json), b: (&str, Json), c: (&str, Json)) -> (r: Json)
    ensures
        r@ == JsonView::Object(
            empty_object().insert(a.0@, a.1@).insert(b.0@, b.1@).insert(c.0@, c.1@),
        ),
{
    let mut fields: Vec<(String, Json)> = Vec::new();
    push_field(&mut fields, a);
    push_field(&mut fields, b);
    push_field(&mut fields, c);
    Json::Object(fields)
}

/// An object with four fields.
pub fn object4(a: (&str, Json), b: (&str, Json), c: (&str, Json), d: (&str, Json)) -> (r: Json)
    ensures
        r@ == JsonView::Object(
            empty_object().insert(a.0@, a.1@).insert(b.0@, b.1@).insert(c.0@, c.1@).insert(
                d.0@,
                d.1@,
            ),
        ),
{
    let mut fields: Vec<(String, Json)> = Vec::new();
    push_field(&mut fields, a);
    push_field(&mut fields, b);
    push_field(&mut fields, c);
    push_field(&mut fields, d);
    Json::Object(fields)
}

/// No two fields have one name.
pub open spec fn distinct_names(s: Seq<(String, Json)>) -> bool {
    forall|i: int, j: int| 0 <= i < j < s.len() ==> (#[trigger] s[i]).0@ != (#[trigger] s[j]).0@
}

proof fn lemma_removed_field(s: Seq<(String, Json)>, n: int, x: JsonView)
    requires
        0 <= n < s.len(),
    ensures
        field_map(s.remove(n)).insert(s[n].0@, x) == field_map(s).insert(s[n].0@, x),
    decreases s.len(),
{
    let k = s[n].0@;
    if n == s.len() - 1 {
        assert(s.remove(n) == s.drop_last());
        assert(field_map(s).insert(k, x) =~= field_map(s.drop_last()).insert(k, x));
    } else {
        let t = s.drop_last();
        lemma_removed_field(t, n, x);
        assert(s.remove(n).drop_last() == t.remove(n));
        assert(s.remove(n).last() == s.last());
        let (a, b) = (field_map(t.remove(n)), field_map(t));
        let (l, y) = (s.last().0@, content(s.last().1));
        if l == k {
            assert(a.insert(l, y).insert(k, x) =~= a.insert(k, x));
            assert(b.insert(l, y).insert(k, x) =~= b.insert(k, x));
        } else {
            assert(a.insert(l, y).insert(k, x) =~= a.insert(k, x).insert(l, y));
            assert(b.insert(l, y).insert(k, x) =~= b.insert(k, x).insert(l, y));
        }
    }
}

/// Sets a field, in the place of those that have its name.
pub fn set_field(fields: &mut Vec<(String, Json)>, name: String, value: Json)
    ensures
        field_map(final(fields)@) == field_map(old(fields)@).insert(name@, value@),
        distinct_names(old(fields)@) ==> distinct_names(final(fields)@),
{
    let ghost had = fields@;
    let mut n: usize = fields.len();
    while n > 0
        invariant
            n <= fields@.len(),
            forall|j: int| n <= j < fields@.len() ==> (#[trigger] fields@[j]).0@ != name@,
            field_map(fields@).insert(name@, value@) =~= field_map(had).insert(name@, value@),
            distinct_names(had) ==> distinct_names(fields@),
        decreases n,
    {
        n = n - 1;
        if text::same(fields[n].0.as_str(), name.as_str()) {
            let ghost s = fields@;
            proof {
                lemma_removed_field(s, n as int, value@);
            }
            fields.remove(n);
        }
    }
    let ghost kept = fields@;
    fields.push((name, value));
    assert(fields@.drop_last() == kept);
}

/// Adds a field at the end.
fn push_field(fields: &mut Vec<(String, Json)>, field: (&str, Json))
    ensures
        field_map(final(fields)@) == field_map(old(fields)@).insert(field.0@, field.1@),
{
    let (name, value) = field;
    fields.push((name.to_string(), value));
    assert(fields@.drop_last() == old(fields)@);
}

} // verus!
