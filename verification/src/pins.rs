//! The pins on disk: a JSON object from key number to session id.
use crate::board::slot_allocator;
use crate::text;
use std::collections::HashMap;
use vstd::prelude::*;

verus! {

/// What `serde_json::from_str` reads as a table of strings; None when the text is none.
pub uninterp spec fn text_table(raw: Seq<char>) -> Option<Map<Seq<char>, Seq<char>>>;

/// The table that these pairs make; the last pair of a name counts.
pub open spec fn table(pairs: Seq<(String, String)>) -> Map<Seq<char>, Seq<char>>
    decreases pairs.len(),
{
    if pairs.len() == 0 {
        Map::empty()
    } else {
        table(pairs.drop_last()).insert(pairs.last().0@, pairs.last().1@)
    }
}

/// No name occurs twice.
pub open spec fn distinct_names(pairs: Seq<(String, String)>) -> bool {
    forall|i: int, j: int|
        0 <= i < j < pairs.len() ==> (#[trigger] pairs[i]).0@ != (#[trigger] pairs[j]).0@
}

/// `serde_json::from_str` into a table of strings: the fields of a JSON object
/// that holds nothing but strings, each name once, in no particular order.
#[verifier::external_body]
fn parse_text_table(raw: &str) -> (r: Option<Vec<(String, String)>>)
    ensures
        match r {
            Some(pairs) => text_table(raw@) == Some(table(pairs@)) && distinct_names(pairs@),
            None => text_table(raw@) is None,
        },
{
    let table: Option<HashMap<String, String>> = serde_json::from_str(raw).ok();
    table.map(|t| t.into_iter().collect())
}

/// `serde_json::to_string_pretty` of a table of strings, each name once: writing
/// one never fails, and reading the text gives the table back. The order of the
/// fields is that of a `HashMap`, so the text itself is not determined.
#[verifier::external_body]
fn write_text_table(pairs: &Vec<(String, String)>) -> (r: Option<String>)
    requires
        distinct_names(pairs@),
    ensures
        r is Some,
        text_table(r->0@) == Some(table(pairs@)),
{
    let table: HashMap<String, String> = pairs.iter().cloned().collect();
    serde_json::to_string_pretty(&table).ok()
}

/// The pins that these pairs stand for; names that are no key number are left out.
pub open spec fn pins_of(pairs: Seq<(String, String)>) -> Map<usize, Seq<char>>
    decreases pairs.len(),
{
    if pairs.len() == 0 {
        Map::empty()
    } else {
        let t = pins_of(pairs.drop_last());
        match text::number(pairs.last().0@) {
            Some(n) => if n <= usize::MAX {
                t.insert(n as usize, pairs.last().1@)
            } else {
                t
            },
            None => t,
        }
    }
}

/// The pins that these pairs stand for; names that are no key number are left out.
pub fn pins_from_pairs(pairs: &Vec<(String, String)>) -> (r: HashMap<usize, String>)
    ensures
        slot_allocator::pin_ids(r@) == pins_of(pairs@),
{
    broadcast use vstd::std_specs::hash::group_hash_axioms;

    let mut out: HashMap<usize, String> = HashMap::new();
    let mut i: usize = 0;
    assert(slot_allocator::pin_ids(out@) =~= pins_of(pairs@.take(0)));
    while i < pairs.len()
        invariant
            i <= pairs@.len(),
            slot_allocator::pin_ids(out@) == pins_of(pairs@.take(i as int)),
        decreases pairs@.len() - i,
    {
        assert(pairs@.take(i + 1).drop_last() == pairs@.take(i as int));
        if let Some(k) = text::parse_usize(pairs[i].0.as_str()) {
            let ghost had = out@;
            out.insert(k, pairs[i].1.clone());
            assert(slot_allocator::pin_ids(out@) =~= slot_allocator::pin_ids(had).insert(
                k,
                pairs@[i as int].1@,
            ));
        }
        i = i + 1;
    }
    assert(pairs@.take(i as int) == pairs@);
    out
}

/// The pins may have been read from this text: they are what some order of its
/// fields gives, or nothing when it is no table of strings.
pub open spec fn read_from(pins: Map<usize, Seq<char>>, raw: Seq<char>) -> bool {
    match text_table(raw) {
        None => pins == Map::<usize, Seq<char>>::empty(),
        Some(t) => exists|pairs: Seq<(String, String)>|
            table(pairs) == t && distinct_names(pairs) && pins == #[trigger] pins_of(pairs),
    }
}

/// The pins in a text. One that is no table of strings has none, and names that
/// are no key number are left out.
pub fn load_pins(raw: &str) -> (r: HashMap<usize, String>)
    ensures
        read_from(slot_allocator::pin_ids(r@), raw@),
{
    match parse_text_table(raw) {
        Some(pairs) => pins_from_pairs(&pairs),
        None => {
            let r: HashMap<usize, String> = HashMap::new();
            assert(slot_allocator::pin_ids(r@) =~= Map::<usize, Seq<char>>::empty());
            r
        },
    }
}

/// The name is the usual form of the number of a pinned key.
pub open spec fn names_pin(pins: Map<usize, Seq<char>>, name: Seq<char>) -> bool {
    text::number(name) matches Some(n) && n <= usize::MAX && name == text::decimal(n)
        && pins.contains_key(n as usize)
}

/// The table that pins are kept as.
pub open spec fn table_of(pins: Map<usize, Seq<char>>) -> Map<Seq<char>, Seq<char>> {
    Map::new(
        |name: Seq<char>| names_pin(pins, name),
        |name: Seq<char>| pins[text::number(name)->0 as usize],
    )
}

proof fn lemma_table(pairs: Seq<(String, String)>, name: Seq<char>)
    requires
        distinct_names(pairs),
    ensures
        table(pairs).contains_key(name) <==> exists|i: int|
            0 <= i < pairs.len() && (#[trigger] pairs[i]).0@ == name,
        forall|i: int|
            0 <= i < pairs.len() && (#[trigger] pairs[i]).0@ == name ==> table(pairs)[name]
                == pairs[i].1@,
    decreases pairs.len(),
{
    if pairs.len() > 0 {
        let t = pairs.drop_last();
        assert forall|i: int, j: int| 0 <= i < j < t.len() implies (#[trigger] t[i]).0@ != (
        #[trigger] t[j]).0@ by {
            assert(pairs[i].0@ != pairs[j].0@);
        }
        lemma_table(t, name);
        let last = pairs.len() - 1;
        if pairs.last().0@ == name {
            assert(pairs[last].0@ == name);
            assert forall|i: int| 0 <= i < pairs.len() && (
            #[trigger] pairs[i]).0@ == name implies table(pairs)[name] == pairs[i].1@ by {
                if i < last {
                    assert(pairs[i].0@ != pairs[last].0@);
                }
            }
        } else {
            if table(t).contains_key(name) {
                let i = choose|i: int| 0 <= i < t.len() && (#[trigger] t[i]).0@ == name;
                assert(pairs[i].0@ == name);
            }
            assert forall|i: int| 0 <= i < pairs.len() && (
            #[trigger] pairs[i]).0@ == name implies table(pairs)[name] == pairs[i].1@ by {
                assert(i < last);
                assert(t[i].0@ == name);
            }
            if exists|i: int| 0 <= i < pairs.len() && (#[trigger] pairs[i]).0@ == name {
                let i = choose|i: int| 0 <= i < pairs.len() && (#[trigger] pairs[i]).0@ == name;
                assert(t[i].0@ == name);
            }
        }
    }
}

/// The text that pins are kept as. Writing never fails, and the text holds
/// exactly the pins.
pub fn save_pins(pins: &HashMap<usize, String>) -> (r: Option<String>)
    ensures
        r is Some,
        text_table(r->0@) == Some(table_of(slot_allocator::pin_ids(pins@))),
{
    broadcast use vstd::std_specs::hash::group_hash_axioms;

    let ghost ids = slot_allocator::pin_ids(pins@);
    let ghost mut keys: Seq<usize> = Seq::empty();
    let mut pairs: Vec<(String, String)> = Vec::new();
    for (k, v) in it: pins.iter()
        invariant
            ids == slot_allocator::pin_ids(pins@),
            it.seq().no_duplicates(),
            forall|j: int|
                0 <= j < it.seq().len() ==> pins@.contains_key(*(#[trigger] it.seq()[j]).0)
                    && pins@[*it.seq()[j].0] == *it.seq()[j].1,
            forall|i: usize| #[trigger]
                pins@.contains_key(i) ==> it.seq().contains((&i, &pins@[i])),
            keys.len() == it.index(),
            pairs@.len() == it.index(),
            forall|j: int| 0 <= j < it.index() ==> #[trigger] keys[j] == *it.seq()[j].0,
            lists_pins(pairs@, keys, ids),
            it.index() == it.seq().len() ==> forall|i: usize| #[trigger]
                ids.contains_key(i) ==> keys.contains(i),
    {
        let ghost at = it.index() as int;
        let ghost had = keys;
        assert(it.seq()[at] == (k, v));
        pairs.push((text::to_decimal(*k as u64), v.clone()));
        proof {
            keys = had.push(*k);
        }
        assert forall|j: int| 0 <= j < at implies #[trigger] had[j] != *k by {
            if had[j] == *k {
                assert(it.seq()[j] == it.seq()[at]);
            }
        }
        assert forall|i: usize|
            at + 1 == it.seq().len() && #[trigger] ids.contains_key(i) implies keys.contains(i) by {
            assert(pins@.contains_key(i));
            let j = choose|j: int| 0 <= j < it.seq().len() && it.seq()[j] == (&i, &pins@[i]);
            assert(keys[j] == i);
        }
    }
    proof {
        lemma_listed_table(pairs@, keys, ids);
    }
    write_text_table(&pairs)
}

/// These pairs hold the pins of these keys, each under the usual form of its
/// number, and no key occurs twice.
spec fn lists_pins(
    pairs: Seq<(String, String)>,
    keys: Seq<usize>,
    ids: Map<usize, Seq<char>>,
) -> bool {
    &&& pairs.len() == keys.len()
    &&& keys.no_duplicates()
    &&& forall|j: int|
        0 <= j < keys.len() ==> ids.contains_key(#[trigger] keys[j]) && pairs[j].0@
            == text::decimal(keys[j] as nat) && pairs[j].1@ == ids[keys[j]]
}

proof fn lemma_listed_table(
    pairs: Seq<(String, String)>,
    keys: Seq<usize>,
    ids: Map<usize, Seq<char>>,
)
    requires
        lists_pins(pairs, keys, ids),
        forall|i: usize| #[trigger] ids.contains_key(i) ==> keys.contains(i),
    ensures
        table(pairs) == table_of(ids),
        distinct_names(pairs),
{
    assert forall|i: int, j: int| 0 <= i < j < pairs.len() implies (#[trigger] pairs[i]).0@ != (
    #[trigger] pairs[j]).0@ by {
        text::lemma_decimal_is_read_back(keys[i] as nat);
        text::lemma_decimal_is_read_back(keys[j] as nat);
        assert(keys[i] != keys[j]);
    }
    assert forall|name: Seq<char>| #[trigger]
        table(pairs).contains_key(name) == table_of(ids).contains_key(name) && (table(
            pairs,
        ).contains_key(name) ==> table(pairs)[name] == table_of(ids)[name]) by {
        lemma_table(pairs, name);
        if table(pairs).contains_key(name) {
            let j = choose|j: int| 0 <= j < pairs.len() && (#[trigger] pairs[j]).0@ == name;
            text::lemma_decimal_is_read_back(keys[j] as nat);
            assert(ids.contains_key(keys[j]));
        }
        if names_pin(ids, name) {
            let n = text::number(name)->0;
            assert(keys.contains(n as usize));
            let j = choose|j: int| 0 <= j < keys.len() && keys[j] == n as usize;
            assert(pairs[j].0@ == name);
        }
    }
    assert(table(pairs) =~= table_of(ids));
}

/// Pins that are saved and loaded again are the same pins.
pub proof fn lemma_pins_survive_restart(
    pins: Map<usize, Seq<char>>,
    raw: Seq<char>,
    loaded: Map<usize, Seq<char>>,
)
    requires
        text_table(raw) == Some(table_of(pins)),
        read_from(loaded, raw),
    ensures
        loaded == pins,
{
    let pairs = choose|pairs: Seq<(String, String)>|
        table(pairs) == table_of(pins) && distinct_names(pairs) && loaded == #[trigger] pins_of(
            pairs,
        );
    assert forall|j: int| 0 <= j < pairs.len() implies names_pin(pins, (#[trigger] pairs[j]).0@)
        && pairs[j].1@ == pins[text::number(pairs[j].0@)->0 as usize] by {
        lemma_table(pairs, pairs[j].0@);
        assert(table(pairs).contains_key(pairs[j].0@));
    }
    assert forall|i: usize| #[trigger]
        loaded.contains_key(i) == pins.contains_key(i) && (loaded.contains_key(i) ==> loaded[i]
            == pins[i]) by {
        lemma_pins_of(pairs, pins, i);
        text::lemma_decimal_is_read_back(i as nat);
        let name = text::decimal(i as nat);
        lemma_table(pairs, name);
        if pins.contains_key(i) {
            assert(names_pin(pins, name));
            assert(table(pairs).contains_key(name));
        }
    }
    assert(loaded =~= pins);
}

/// The pairs of a table of pins give, for each key, what its usual name holds.
proof fn lemma_pins_of(pairs: Seq<(String, String)>, pins: Map<usize, Seq<char>>, i: usize)
    requires
        distinct_names(pairs),
        forall|j: int| 0 <= j < pairs.len() ==> names_pin(pins, (#[trigger] pairs[j]).0@) && pairs[j].1@
            == pins[text::number(pairs[j].0@)->0 as usize],
    ensures
        pins_of(pairs).contains_key(i) <==> exists|j: int|
            0 <= j < pairs.len() && (#[trigger] pairs[j]).0@ == text::decimal(i as nat),
        pins_of(pairs).contains_key(i) ==> pins.contains_key(i) && pins_of(pairs)[i] == pins[i],
    decreases pairs.len(),
{
    if pairs.len() > 0 {
        let t = pairs.drop_last();
        assert forall|a: int, b: int| 0 <= a < b < t.len() implies (#[trigger] t[a]).0@ != (
        #[trigger] t[b]).0@ by {
            assert(pairs[a].0@ != pairs[b].0@);
        }
        assert forall|j: int| 0 <= j < t.len() implies names_pin(pins, (#[trigger] t[j]).0@)
            && t[j].1@ == pins[text::number(t[j].0@)->0 as usize] by {
            assert(names_pin(pins, pairs[j].0@));
        }
        lemma_pins_of(t, pins, i);
        let last = pairs.len() - 1;
        assert(names_pin(pins, pairs[last].0@));
        let n = text::number(pairs[last].0@)->0;
        text::lemma_decimal_is_read_back(i as nat);
        if n == i as nat {
            assert(pairs[last].0@ == text::decimal(i as nat));
        } else {
            assert(pairs[last].0@ != text::decimal(i as nat));
            if pins_of(t).contains_key(i) {
                let j = choose|j: int|
                    0 <= j < t.len() && (#[trigger] t[j]).0@ == text::decimal(i as nat);
                assert(pairs[j].0@ == text::decimal(i as nat));
            }
            if exists|j: int|
                0 <= j < pairs.len() && (#[trigger] pairs[j]).0@ == text::decimal(i as nat) {
                let j = choose|j: int|
                    0 <= j < pairs.len() && (#[trigger] pairs[j]).0@ == text::decimal(i as nat);
                assert(t[j].0@ == text::decimal(i as nat));
            }
        }
    }
}

/// Of the pairs that name one key the last counts; a pair whose name is no number
/// of a key, or too large for one, pins nothing.
pub proof fn lemma_last_pin_of_a_key_counts(pairs: Seq<(String, String)>, key: usize, i: int)
    requires
        -1 <= i < pairs.len(),
        forall|j: int|
            i < j < pairs.len() ==> text::number((#[trigger] pairs[j]).0@) != Some(key as nat),
        i >= 0 ==> text::number(pairs[i].0@) == Some(key as nat),
    ensures
        pins_of(pairs).contains_key(key) <==> i >= 0,
        i >= 0 ==> pins_of(pairs)[key] == pairs[i].1@,
    decreases pairs.len(),
{
    if pairs.len() > 0 && i < pairs.len() - 1 {
        let t = pairs.drop_last();
        assert forall|j: int| i < j < t.len() implies text::number((#[trigger] t[j]).0@) != Some(
            key as nat,
        ) by {
            assert(t[j] == pairs[j]);
        }
        lemma_last_pin_of_a_key_counts(t, key, i);
        assert(text::number(pairs[pairs.len() - 1].0@) != Some(key as nat));
    }
}

/// The table that is kept holds each pinned key, as a plain number, with its
/// session, and nothing else.
pub proof fn lemma_table_holds_the_pins(
    pins: Map<usize, Seq<char>>,
    key: usize,
    name: Seq<char>,
)
    ensures
        pins.contains_key(key) ==> table_of(pins).contains_key(text::decimal(key as nat))
            && table_of(pins)[text::decimal(key as nat)] == pins[key],
        table_of(pins).contains_key(name) ==> exists|k: usize| #[trigger]
            pins.contains_key(k) && name == text::decimal(k as nat),
{
    text::lemma_decimal_is_read_back(key as nat);
    if table_of(pins).contains_key(name) {
        let n = text::number(name)->0;
        assert(pins.contains_key(n as usize) && name == text::decimal(n as usize as nat));
    }
}

/// Text that is no table gives no pin.
pub proof fn lemma_unreadable_pins_are_none(
    pins: Map<usize, Seq<char>>,
    raw: Seq<char>,
    key: usize,
)
    requires
        read_from(pins, raw),
        text_table(raw) is None,
    ensures
        !pins.contains_key(key),
{
}

/// Of the pairs with one name the last counts in a table, and a table holds no
/// other names.
pub proof fn lemma_last_pair_of_a_name_counts(
    pairs: Seq<(String, String)>,
    name: Seq<char>,
    i: int,
)
    requires
        -1 <= i < pairs.len(),
        forall|j: int| i < j < pairs.len() ==> (#[trigger] pairs[j]).0@ != name,
        i >= 0 ==> pairs[i].0@ == name,
    ensures
        table(pairs).contains_key(name) <==> i >= 0,
        i >= 0 ==> table(pairs)[name] == pairs[i].1@,
    decreases pairs.len(),
{
    if pairs.len() > 0 && i < pairs.len() - 1 {
        let t = pairs.drop_last();
        assert forall|j: int| i < j < t.len() implies (#[trigger] t[j]).0@ != name by {
            assert(t[j] == pairs[j]);
        }
        lemma_last_pair_of_a_name_counts(t, name, i);
        assert(pairs[pairs.len() - 1].0@ != name);
    }
}

} // verus!
