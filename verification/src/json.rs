//! JSON values as plain data, read from text by `serde_json`.

use vstd::prelude::*;

verus! {

#[verifier::external_type_specification]
#[verifier::external_body]
pub struct ExJsonValue(serde_json::Value);

/// A JSON value. Numbers keep their text; an object keeps its members in
/// the order `serde_json` hands them out (by key, each key once).
#[derive(Debug)]
pub enum JsonValue {
    Null,
    Bool(bool),
    Number(String),
    Str(String),
    Array(Vec<JsonValue>),
    Object(Vec<(String, JsonValue)>),
}

/// The value that a JSON text denotes, when it is JSON (a name for what
/// `serde_json::from_str` reads into a `serde_json::Value`).
pub uninterp spec fn json_of(text: Seq<char>) -> Option<JsonValue>;

/// The text of the error that `serde_json::from_str` reports for text that
/// is not JSON (a name for the `Display` text of its `serde_json::Error`).
pub uninterp spec fn json_error_text(text: Seq<char>) -> Seq<char>;

/// A `serde_json::Value` as the plain value it holds, member for member.
#[verifier::external_body]
fn json_value_of(v: &serde_json::Value) -> JsonValue {
    match v {
        serde_json::Value::Null => JsonValue::Null,
        serde_json::Value::Bool(b) => JsonValue::Bool(*b),
        serde_json::Value::Number(n) => JsonValue::Number(n.to_string()),
        serde_json::Value::String(s) => JsonValue::Str(s.clone()),
        serde_json::Value::Array(a) => JsonValue::Array(a.iter().map(json_value_of).collect()),
        serde_json::Value::Object(m) => JsonValue::Object(
            m.iter().map(|(k, x)| (k.clone(), json_value_of(x))).collect(),
        ),
    }
}

/// `serde_json::from_str` into a `serde_json::Value`: the value a JSON text
/// denotes, or the text of the error for text that is not JSON. The
/// contract names both; the JSON grammar is not restated.
#[verifier::external_body]
pub(crate) fn parse_json(text: &str) -> (r: Result<JsonValue, String>)
    ensures
        r matches Ok(v) ==> json_of(text@) == Some(v),
        r is Err ==> json_of(text@) is None,
        r matches Err(m) ==> m@ == json_error_text(text@),
{
    match serde_json::from_str::<serde_json::Value>(text) {
        Ok(v) => Ok(json_value_of(&v)),
        Err(e) => Err(e.to_string()),
    }
}

/// The value of the first member of an object named `key`.
pub open spec fn json_get(members: Seq<(String, JsonValue)>, key: Seq<char>) -> Option<JsonValue>
    decreases members.len(),
{
    if members.len() == 0 {
        None
    } else if members[0].0@ == key {
        Some(members[0].1)
    } else {
        json_get(members.drop_first(), key)
    }
}

/// The members of an object whose values are strings, as (key, string)
/// pairs, in order.
pub open spec fn string_members(members: Seq<(String, JsonValue)>) -> Seq<(Seq<char>, Seq<char>)>
    decreases members.len(),
{
    if members.len() == 0 {
        Seq::empty()
    } else {
        let rest = string_members(members.drop_last());
        match members.last().1 {
            JsonValue::Str(s) => rest.push((members.last().0@, s@)),
            _ => rest,
        }
    }
}

/// The first member of `members` named `key`.
pub fn json_get_exec<'a>(members: &'a Vec<(String, JsonValue)>, key: &String) -> (r: Option<
    &'a JsonValue,
>)
    ensures
        match r {
            Some(v) => json_get(members@, key@) == Some(*v),
            None => json_get(members@, key@) is None,
        },
{
    let mut i: usize = 0;
    assert(members@.skip(0) =~= members@);
    while i < members.len()
        invariant
            i <= members@.len(),
            json_get(members@, key@) == json_get(members@.skip(i as int), key@),
        decreases members@.len() - i,
    {
        assert(members@.skip(i as int)[0] == members@[i as int]);
        assert(members@.skip(i as int).drop_first() =~= members@.skip(i + 1));
        if members[i].0 == *key {
            return Some(&members[i].1);
        }
        i = i + 1;
    }
    assert(members@.skip(i as int).len() == 0);
    None
}

/// The members of an object whose values are strings.
pub fn string_members_exec(members: &Vec<(String, JsonValue)>) -> (r: Vec<(String, String)>)
    ensures
        Seq::new(r@.len(), |i: int| (r@[i].0@, r@[i].1@)) == string_members(members@),
{
    let mut r: Vec<(String, String)> = Vec::new();
    let mut i: usize = 0;
    assert(members@.take(0) =~= Seq::<(String, JsonValue)>::empty());
    while i < members.len()
        invariant
            i <= members@.len(),
            Seq::new(r@.len(), |j: int| (r@[j].0@, r@[j].1@)) == string_members(
                members@.take(i as int),
            ),
        decreases members@.len() - i,
    {
        let ghost before = Seq::new(r@.len(), |j: int| (r@[j].0@, r@[j].1@));
        assert(members@.take(i + 1).drop_last() =~= members@.take(i as int));
        assert(members@.take(i + 1).last() == members@[i as int]);
        match &members[i].1 {
            JsonValue::Str(s) => {
                r.push((members[i].0.clone(), s.clone()));
                assert(Seq::new(r@.len(), |j: int| (r@[j].0@, r@[j].1@)) =~= before.push(
                    (members@[i as int].0@, s@),
                ));
            },
            _ => {},
        }
        i = i + 1;
    }
    assert(members@.take(members@.len() as int) =~= members@);
    r
}

} // verus!
