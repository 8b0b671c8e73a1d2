//! A plain model of the JSON that Learn returns, and the defensive lookups the parsers
//! use on it: the first present key among candidates, the first array under any key.
use vstd::prelude::*;
use crate::text::{chars_of, seq_eq, string_of};

verus! {

broadcast use vstd::string::group_string_axioms;

/// A JSON value. Numbers keep their textual form; an object keeps its members in order,
/// each key at most once.
#[derive(Debug)]
pub enum JsonValue {
    Null,
    Bool(bool),
    Number(String),
    Str(String),
    Array(Vec<JsonValue>),
    Object(Vec<(String, JsonValue)>),
}

/// Position of the first member named `k`, or the number of members.
pub open spec fn key_index(entries: Seq<(String, JsonValue)>, k: Seq<char>) -> int
    decreases entries.len(),
{
    if entries.len() == 0 {
        0
    } else if entries[0].0@ == k {
        0
    } else {
        1 + key_index(entries.drop_first(), k)
    }
}

pub proof fn lemma_key_index(entries: Seq<(String, JsonValue)>, k: Seq<char>)
    ensures
        0 <= key_index(entries, k) <= entries.len(),
        key_index(entries, k) < entries.len() ==> entries[key_index(entries, k)].0@ == k,
        forall|i: int| 0 <= i < key_index(entries, k) ==> (#[trigger] entries[i]).0@ != k,
    decreases entries.len(),
{
    if entries.len() > 0 && entries[0].0@ != k {
        lemma_key_index(entries.drop_first(), k);
        assert forall|i: int| 0 <= i < key_index(entries, k) implies (#[trigger] entries[i]).0@
            != k by {
            if i > 0 {
                assert(entries[i] == entries.drop_first()[i - 1]);
            }
        }
    }
}

/// `v[k]`: the member `k` of an object; `Null` when absent or when `v` is no object.
pub open spec fn field(v: JsonValue, k: Seq<char>) -> JsonValue {
    match v {
        JsonValue::Object(e) => {
            let i = key_index(e@, k);
            if 0 <= i < e@.len() {
                e@[i].1
            } else {
                JsonValue::Null
            }
        },
        _ => JsonValue::Null,
    }
}

pub open spec fn true_text() -> Seq<char> {
    seq!['t', 'r', 'u', 'e']
}

pub open spec fn false_text() -> Seq<char> {
    seq!['f', 'a', 'l', 's', 'e']
}

/// The text of a string, number or boolean; nothing for other values.
pub open spec fn scalar_text(v: JsonValue) -> Option<Seq<char>> {
    match v {
        JsonValue::Str(s) => Some(s@),
        JsonValue::Number(n) => Some(n@),
        JsonValue::Bool(b) => Some(
            if b {
                true_text()
            } else {
                false_text()
            },
        ),
        _ => None,
    }
}

/// The text of the first candidate key holding a string, number or boolean; empty when
/// none does.
pub open spec fn pick_spec(v: JsonValue, keys: Seq<Seq<char>>) -> Seq<char>
    decreases keys.len(),
{
    if keys.len() == 0 {
        seq![]
    } else {
        match scalar_text(field(v, keys[0])) {
            Some(t) => t,
            None => pick_spec(v, keys.drop_first()),
        }
    }
}

/// The first array found: `v` itself when it is one; else, key by key, an array under
/// the key, or one found (recursively) inside an object under the key.
pub open spec fn find_array_spec(v: JsonValue, keys: Seq<Seq<char>>) -> Option<Seq<JsonValue>>
    decreases v, keys.len() + 1,
{
    match v {
        JsonValue::Array(a) => Some(a@),
        _ => find_array_from(v, keys, 0),
    }
}

pub open spec fn find_array_from(v: JsonValue, keys: Seq<Seq<char>>, i: int) -> Option<
    Seq<JsonValue>,
>
    decreases v, keys.len() - i,
{
    if i < 0 || i >= keys.len() {
        None
    } else {
        match v {
            JsonValue::Object(e) => {
                let k = key_index(e@, keys[i]);
                if 0 <= k < e@.len() {
                    match e@[k].1 {
                        JsonValue::Array(a) => Some(a@),
                        JsonValue::Object(_) => {
                            proof {
                                assert(decreases_to!(v => e));
                                assert(decreases_to!(e => e@));
                                assert(decreases_to!(e@ => e@[k]));
                                assert(decreases_to!(e@[k] => e@[k].1));
                            }
                            match find_array_spec(e@[k].1, keys) {
                                Some(a) => Some(a),
                                None => find_array_from(v, keys, i + 1),
                            }
                        },
                        _ => find_array_from(v, keys, i + 1),
                    }
                } else {
                    find_array_from(v, keys, i + 1)
                }
            },
            _ => None,
        }
    }
}

pub open spec fn key_seqs(keys: Seq<&str>) -> Seq<Seq<char>> {
    keys.map_values(|k: &str| k@)
}

pub open spec fn key_vecs(keys: Seq<Vec<char>>) -> Seq<Seq<char>> {
    keys.map_values(|k: Vec<char>| k@)
}

/// The member named `k`, if present.
pub fn get_field<'a>(v: &'a JsonValue, k: &[char]) -> (r: Option<&'a JsonValue>)
    ensures
        r matches Some(x) ==> *x == field(*v, k@),
        r is None ==> field(*v, k@) == JsonValue::Null,
{
    match v {
        JsonValue::Object(e) => {
            let mut i: usize = 0;
            assert(e@.skip(0) == e@);
            while i < e.len()
                invariant
                    i <= e@.len(),
                    *v == JsonValue::Object(*e),
                    key_index(e@, k@) == i + key_index(e@.skip(i as int), k@),
                decreases e.len() - i,
            {
                let name = chars_of(e[i].0.as_str());
                if seq_eq(&name, k) {
                    assert(e@.skip(i as int)[0] == e@[i as int]);
                    assert(key_index(e@.skip(i as int), k@) == 0);
                    assert(key_index(e@, k@) == i);
                    assert(*v == JsonValue::Object(*e));
                    assert(field(*v, k@) == e@[i as int].1);
                    let r = &e[i].1;
                    assert(*r == e@[i as int].1);
                    return Some(r);
                }
                assert(e@.skip(i as int).drop_first() == e@.skip(i + 1));
                i += 1;
            }
            assert(e@.skip(i as int).len() == 0);
            None
        },
        _ => None,
    }
}

fn scalar_text_exec(v: &JsonValue) -> (r: Option<String>)
    ensures
        r matches Some(t) ==> scalar_text(*v) == Some(t@),
        r is None ==> scalar_text(*v) is None,
{
    match v {
        JsonValue::Str(s) => Some(s.clone()),
        JsonValue::Number(n) => Some(n.clone()),
        JsonValue::Bool(b) => {
            if *b {
                let t = vec!['t', 'r', 'u', 'e'];
                Some(string_of(&t))
            } else {
                let t = vec!['f', 'a', 'l', 's', 'e'];
                Some(string_of(&t))
            }
        },
        _ => None,
    }
}

/// `pick` with candidate keys given as character vectors.
pub fn pick_chars(v: &JsonValue, keys: &[Vec<char>]) -> (r: String)
    ensures
        r@ == pick_spec(*v, key_vecs(keys@)),
{
    let ghost ks = key_vecs(keys@);
    let mut i: usize = 0;
    assert(ks.skip(0) == ks);
    while i < keys.len()
        invariant
            i <= keys.len(),
            ks == key_vecs(keys@),
            pick_spec(*v, ks) == pick_spec(*v, ks.skip(i as int)),
        decreases keys.len() - i,
    {
        let ghost rest = ks.skip(i as int);
        assert(rest[0] == keys@[i as int]@);
        assert(rest.drop_first() == ks.skip(i + 1));
        match get_field(v, keys[i].as_slice()) {
            Some(f) => match scalar_text_exec(f) {
                Some(t) => return t,
                None => {},
            },
            None => {},
        }
        i += 1;
    }
    String::new()
}

/// Picks the first present candidate key and converts strings, numbers and booleans to
/// text; empty when no candidate holds one.
pub fn pick(v: &JsonValue, keys: &[&str]) -> (r: String)
    ensures
        r@ == pick_spec(*v, key_seqs(keys@)),
{
    let mut ks: Vec<Vec<char>> = Vec::new();
    let mut i: usize = 0;
    while i < keys.len()
        invariant
            i <= keys.len(),
            ks@.len() == i,
            forall|m: int| 0 <= m < i ==> (#[trigger] ks@[m])@ == keys@[m]@,
        decreases keys.len() - i,
    {
        ks.push(chars_of(keys[i]));
        i += 1;
    }
    assert(key_vecs(ks@) =~= key_seqs(keys@));
    pick_chars(v, &ks)
}

fn find_array_from_exec<'a>(v: &'a JsonValue, keys: &[Vec<char>], i: usize) -> (r: Option<
    &'a Vec<JsonValue>,
>)
    requires
        i <= keys.len(),
    ensures
        r matches Some(a) ==> find_array_from(*v, key_vecs(keys@), i as int) == Some(a@),
        r is None ==> find_array_from(*v, key_vecs(keys@), i as int) is None,
    decreases *v, keys.len() - i,
{
    if i >= keys.len() {
        return None;
    }
    let ghost ks = key_vecs(keys@);
    assert(ks[i as int] == keys@[i as int]@);
    match v {
        JsonValue::Object(e) => {
            proof {
                lemma_key_index(e@, ks[i as int]);
            }
            match get_field(v, keys[i].as_slice()) {
                Some(f) => match f {
                    JsonValue::Array(a) => Some(a),
                    JsonValue::Object(_) => {
                        let ghost k = key_index(e@, ks[i as int]);
                        proof {
                            assert(decreases_to!(*v => e));
                            assert(decreases_to!(e => e@));
                            assert(decreases_to!(e@ => e@[k]));
                            assert(decreases_to!(e@[k] => e@[k].1));
                        }
                        match find_array_exec(f, keys) {
                            Some(a) => Some(a),
                            None => find_array_from_exec(v, keys, i + 1),
                        }
                    },
                    _ => find_array_from_exec(v, keys, i + 1),
                },
                None => find_array_from_exec(v, keys, i + 1),
            }
        },
        _ => None,
    }
}

/// `find_array` with candidate keys given as character vectors.
pub fn find_array_exec<'a>(v: &'a JsonValue, keys: &[Vec<char>]) -> (r: Option<&'a Vec<JsonValue>>)
    ensures
        r matches Some(a) ==> find_array_spec(*v, key_vecs(keys@)) == Some(a@),
        r is None ==> find_array_spec(*v, key_vecs(keys@)) is None,
    decreases *v, keys.len() + 1,
{
    match v {
        JsonValue::Array(a) => Some(a),
        _ => find_array_from_exec(v, keys, 0),
    }
}

/// Finds the first array under any candidate key, recursing into nested objects; `v`
/// itself when it is an array.
pub fn find_array<'a>(v: &'a JsonValue, keys: &[&str]) -> (r: Option<&'a Vec<JsonValue>>)
    ensures
        r matches Some(a) ==> find_array_spec(*v, key_seqs(keys@)) == Some(a@),
        r is None ==> find_array_spec(*v, key_seqs(keys@)) is None,
{
    let mut ks: Vec<Vec<char>> = Vec::new();
    let mut i: usize = 0;
    while i < keys.len()
        invariant
            i <= keys.len(),
            ks@.len() == i,
            forall|m: int| 0 <= m < i ==> (#[trigger] ks@[m])@ == keys@[m]@,
        decreases keys.len() - i,
    {
        ks.push(chars_of(keys[i]));
        i += 1;
    }
    assert(key_vecs(ks@) =~= key_seqs(keys@));
    find_array_exec(v, &ks)
}

// ---------------------------------------------------------------------------
// Parsing (serde_json)
// ---------------------------------------------------------------------------

/// serde_json's JSON value, carried through unopened.
#[verifier::external_type_specification]
#[verifier::external_body]
pub struct ExSerdeJsonValue(serde_json::Value);

/// What `serde_json::from_str::<serde_json::Value>` makes of a text, as a `JsonValue`:
/// `None` when the text is no JSON. serde_json's grammar is not restated here.
pub uninterp spec fn json_parse(text: Seq<char>) -> Option<JsonValue>;

/// Converts serde_json's value into a `JsonValue`, variant for variant: numbers as their
/// `Display` text, object members in the map's order.
#[verifier::external_body]
fn json_value_of(v: &serde_json::Value) -> JsonValue {
    match v {
        serde_json::Value::Null => JsonValue::Null,
        serde_json::Value::Bool(b) => JsonValue::Bool(*b),
        serde_json::Value::Number(n) => JsonValue::Number(n.to_string()),
        serde_json::Value::String(t) => JsonValue::Str(t.clone()),
        serde_json::Value::Array(a) => JsonValue::Array(a.iter().map(json_value_of).collect()),
        serde_json::Value::Object(m) => JsonValue::Object(
            m.iter().map(|(k, x)| (k.clone(), json_value_of(x))).collect(),
        ),
    }
}

/// `serde_json::from_str::<serde_json::Value>`, converted. The result depends on the text
/// alone and is named by `json_parse`.
#[verifier::external_body]
pub(crate) fn parse_json_text(text: &str) -> (r: Option<JsonValue>)
    ensures
        r == json_parse(text@),
{
    match serde_json::from_str::<serde_json::Value>(text) {
        Ok(v) => Some(json_value_of(&v)),
        Err(_) => None,
    }
}

} // verus!
