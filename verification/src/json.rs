use vstd::prelude::*;

use crate::text::{chars_of, same_chars, strings_view};

verus! {

/// A JSON document as plain values. A number is kept as the unsigned 64-bit integer it
/// holds, `None` where it holds another number (negative, fractional or too large); an
/// object is the list of its key and value pairs.
#[derive(Debug)]
pub enum Json {
    Null,
    Bool(bool),
    Number(Option<u64>),
    Str(String),
    Array(Vec<Json>),
    Object(Vec<(String, Json)>),
}

/// The mathematical model of a JSON document.
pub enum JsonV {
    Null,
    Bool(bool),
    Number(Option<u64>),
    Str(Seq<char>),
    Array(Seq<JsonV>),
    Object(Seq<(Seq<char>, JsonV)>),
}

/// The model of a JSON document.
pub open spec fn json_view(j: Json) -> JsonV
    decreases j,
{
    match j {
        Json::Null => JsonV::Null,
        Json::Bool(b) => JsonV::Bool(b),
        Json::Number(n) => JsonV::Number(n),
        Json::Str(s) => JsonV::Str(s@),
        Json::Array(items) => JsonV::Array(json_seq_view(items@)),
        Json::Object(pairs) => JsonV::Object(json_pairs_view(pairs@)),
    }
}

/// The models of a list of JSON documents.
pub open spec fn json_seq_view(s: Seq<Json>) -> Seq<JsonV>
    decreases s,
{
    if s.len() == 0 {
        Seq::empty()
    } else {
        proof {
            vstd::seq::axiom_seq_index_decreases(s, s.len() - 1);
            vstd::seq::axiom_seq_subrange_decreases(s, 0, s.len() - 1);
        }
        json_seq_view(s.subrange(0, s.len() - 1)).push(json_view(s[s.len() - 1]))
    }
}

/// The models of the key and value pairs of an object.
pub open spec fn json_pairs_view(s: Seq<(String, Json)>) -> Seq<(Seq<char>, JsonV)>
    decreases s,
{
    if s.len() == 0 {
        Seq::empty()
    } else {
        proof {
            vstd::seq::axiom_seq_index_decreases(s, s.len() - 1);
            vstd::seq::axiom_seq_subrange_decreases(s, 0, s.len() - 1);
        }
        json_pairs_view(s.subrange(0, s.len() - 1)).push(
            (s[s.len() - 1].0@, json_view(s[s.len() - 1].1)),
        )
    }
}

impl View for Json {
    type V = JsonV;

    open spec fn view(&self) -> JsonV {
        json_view(*self)
    }
}

/// The model of a document that may be missing.
pub open spec fn json_opt_view(j: Option<Json>) -> Option<JsonV> {
    match j {
        Some(d) => Some(json_view(d)),
        None => None,
    }
}

/// What `serde_json::from_slice` reads from `bytes` as a `serde_json::Value`, as a plain
/// document (`None` where the bytes are not JSON): a function of the bytes alone, which
/// this library does not restate.
pub uninterp spec fn spec_json(bytes: Seq<u8>) -> Option<JsonV>;

#[verifier::external_type_specification]
#[verifier::external_body]
pub struct ExJsonValue(serde_json::Value);

/// Copies a `serde_json::Value` into a `Json`, variant for variant: a number by
/// `serde_json::Number::as_u64`, an array item by item, an object pair by pair in the
/// map's own order. It states nothing by itself; `parse_json` states the result.
#[verifier::external_body]
fn json_of_value(v: &serde_json::Value) -> Json {
    match v {
        serde_json::Value::Null => Json::Null,
        serde_json::Value::Bool(b) => Json::Bool(*b),
        serde_json::Value::Number(n) => Json::Number(n.as_u64()),
        serde_json::Value::String(s) => Json::Str(s.clone()),
        serde_json::Value::Array(items) => Json::Array(items.iter().map(json_of_value).collect()),
        serde_json::Value::Object(m) => Json::Object(
            m.iter().map(|(k, x)| (k.clone(), json_of_value(x))).collect(),
        ),
    }
}

/// Calls `serde_json::from_slice` for a `serde_json::Value` and copies the document into
/// plain values. Claims that the result is a function of the bytes, named `spec_json`:
/// `None` exactly where the bytes are not a JSON document.
#[verifier::external_body]
pub(crate) fn parse_json(bytes: &[u8]) -> (res: Option<Json>)
    ensures
        json_opt_view(res) == spec_json(bytes@),
{
    match serde_json::from_slice::<serde_json::Value>(bytes) {
        Ok(v) => Some(json_of_value(&v)),
        Err(_) => None,
    }
}

/// The value of the first pair with key `key`, if any.
pub open spec fn pairs_lookup(pairs: Seq<(Seq<char>, JsonV)>, key: Seq<char>) -> Option<JsonV>
    decreases pairs.len(),
{
    if pairs.len() == 0 {
        None
    } else if pairs[0].0 == key {
        Some(pairs[0].1)
    } else {
        pairs_lookup(pairs.drop_first(), key)
    }
}

/// The value under `key` of an object; `None` for a missing key or a document that is
/// not an object (as `serde_json::Value::get` with a string key).
pub open spec fn json_field(j: JsonV, key: Seq<char>) -> Option<JsonV> {
    match j {
        JsonV::Object(pairs) => pairs_lookup(pairs, key),
        _ => None,
    }
}

/// The text of a string document, `None` for any other.
pub open spec fn json_text(j: Option<JsonV>) -> Option<Seq<char>> {
    match j {
        Some(JsonV::Str(s)) => Some(s),
        _ => None,
    }
}

/// The unsigned integer of a number document, `None` for any other.
pub open spec fn json_u64(j: Option<JsonV>) -> Option<u64> {
    match j {
        Some(JsonV::Number(n)) => n,
        _ => None,
    }
}

/// The keys of an object document in order, none for any other.
pub open spec fn json_keys(j: Option<JsonV>) -> Seq<Seq<char>> {
    match j {
        Some(JsonV::Object(pairs)) => pairs.map_values(|p: (Seq<char>, JsonV)| p.0),
        _ => Seq::empty(),
    }
}

/// The items of an array document, none for any other.
pub open spec fn json_items(j: Option<JsonV>) -> Seq<JsonV> {
    match j {
        Some(JsonV::Array(items)) => items,
        _ => Seq::empty(),
    }
}

/// The view of a text that may be missing.
pub open spec fn opt_text_view(o: Option<String>) -> Option<Seq<char>> {
    match o {
        Some(s) => Some(s@),
        None => None,
    }
}

/// The models of a list of documents have one entry per document.
pub proof fn lemma_json_seq_view(s: Seq<Json>)
    ensures
        json_seq_view(s).len() == s.len(),
        forall|i: int| 0 <= i < s.len() ==> #[trigger] json_seq_view(s)[i] == json_view(s[i]),
    decreases s.len(),
{
    if s.len() > 0 {
        let front = s.subrange(0, s.len() - 1);
        lemma_json_seq_view(front);
        assert forall|i: int| 0 <= i < s.len() implies #[trigger] json_seq_view(s)[i] == json_view(
            s[i],
        ) by {
            if i < s.len() - 1 {
                assert(front[i] == s[i]);
            }
        }
    }
}

/// The models of the pairs of an object have one entry per pair.
pub proof fn lemma_json_pairs_view(s: Seq<(String, Json)>)
    ensures
        json_pairs_view(s).len() == s.len(),
        forall|i: int|
            0 <= i < s.len() ==> #[trigger] json_pairs_view(s)[i] == (s[i].0@, json_view(s[i].1)),
    decreases s.len(),
{
    if s.len() > 0 {
        let front = s.subrange(0, s.len() - 1);
        lemma_json_pairs_view(front);
        assert forall|i: int| 0 <= i < s.len() implies #[trigger] json_pairs_view(s)[i] == (
            s[i].0@,
            json_view(s[i].1),
        ) by {
            if i < s.len() - 1 {
                assert(front[i] == s[i]);
            }
        }
    }
}

/// The value under `key` of an object document (as `serde_json::Value::get`).
pub fn json_get<'a>(j: &'a Json, key: &str) -> (r: Option<&'a Json>)
    ensures
        match r {
            Some(x) => json_field(j@, key@) == Some(x@),
            None => json_field(j@, key@) is None,
        },
{
    match j {
        Json::Object(pairs) => {
            let ghost pv = json_pairs_view(pairs@);
            proof {
                lemma_json_pairs_view(pairs@);
                assert(pv.skip(0) =~= pv);
                assert(j@ == JsonV::Object(pv));
            }
            let k = chars_of(key);
            let mut i: usize = 0;
            while i < pairs.len()
                invariant
                    i <= pairs.len(),
                    pv == json_pairs_view(pairs@),
                    pv.len() == pairs@.len(),
                    forall|m: int| 0 <= m < pairs@.len() ==> #[trigger] pv[m] == (pairs@[m].0@, json_view(pairs@[m].1)),
                    k@ == key@,
                    j@ == JsonV::Object(pv),
                    pairs_lookup(pv.skip(i as int), key@) == pairs_lookup(pv, key@),
                decreases pairs.len() - i,
            {
                proof {
                    assert(pv.skip(i as int)[0] == pv[i as int]);
                    assert(pv.skip(i as int).drop_first() =~= pv.skip(i + 1));
                }
                if same_chars(&chars_of(pairs[i].0.as_str()), &k) {
                    proof {
                        assert(j@ == JsonV::Object(pv));
                        assert(pv[i as int].0 == key@);
                        assert(pairs_lookup(pv.skip(i as int), key@) == Some(pv[i as int].1));
                    }
                    return Some(&pairs[i].1);
                }
                i += 1;
            }
            proof {
                assert(pv.skip(i as int).len() == 0);
                assert(j@ == JsonV::Object(pv));
            }
            None
        },
        _ => None,
    }
}

/// The text under `key` of an object document, if it is a string.
pub fn json_text_field(j: &Json, key: &str) -> (r: Option<String>)
    ensures
        opt_text_view(r) == json_text(json_field(j@, key@)),
{
    match json_get(j, key) {
        Some(x) => match x {
            Json::Str(s) => Some(s.clone()),
            _ => None,
        },
        None => None,
    }
}

/// The unsigned integer under `key` of an object document, if it is one.
pub fn json_u64_field(j: &Json, key: &str) -> (r: Option<u64>)
    ensures
        r == json_u64(json_field(j@, key@)),
{
    match json_get(j, key) {
        Some(x) => match x {
            Json::Number(n) => *n,
            _ => None,
        },
        None => None,
    }
}

/// The keys, in order, of the object under `key` of an object document; none where
/// there is no object there.
pub fn json_keys_field(j: &Json, key: &str) -> (r: Vec<String>)
    ensures
        strings_view(r@) == json_keys(json_field(j@, key@)),
{
    let mut keys: Vec<String> = Vec::new();
    match json_get(j, key) {
        Some(x) => match x {
            Json::Object(pairs) => {
                proof {
                    lemma_json_pairs_view(pairs@);
                }
                let ghost pv = json_pairs_view(pairs@);
                let mut i: usize = 0;
                while i < pairs.len()
                    invariant
                        i <= pairs.len(),
                        pv == json_pairs_view(pairs@),
                        pv.len() == pairs@.len(),
                        forall|m: int| 0 <= m < pairs@.len() ==> #[trigger] pv[m] == (pairs@[m].0@, json_view(pairs@[m].1)),
                        strings_view(keys@) == pv.take(i as int).map_values(
                            |p: (Seq<char>, JsonV)| p.0,
                        ),
                    decreases pairs.len() - i,
                {
                    let ghost before = keys@;
                    let key_text = pairs[i].0.clone();
                    proof {
                        assert(key_text@ == pv[i as int].0);
                    }
                    keys.push(key_text);
                    proof {
                        assert(strings_view(keys@) =~= strings_view(before).push(pv[i as int].0));
                        assert(pv.take(i + 1) =~= pv.take(i as int).push(pv[i as int]));
                        assert(strings_view(keys@) =~= pv.take(i + 1).map_values(
                            |p: (Seq<char>, JsonV)| p.0,
                        ));
                    }
                    i += 1;
                }
                proof {
                    assert(pv.take(pairs@.len() as int) =~= pv);
                }
            },
            _ => {},
        },
        None => {},
    }
    keys
}

} // verus!
