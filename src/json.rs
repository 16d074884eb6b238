//! A JSON value model owned by the library, and parsing through serde_json.
use vstd::prelude::*;

verus! {

/// A JSON value. Strings and object keys are held as characters; a number is
/// held as the literal text of its value.
#[derive(Debug)]
pub enum Json {
    Null,
    Bool(bool),
    Number(Vec<char>),
    Str(Vec<char>),
    Array(Vec<Json>),
    Object(Vec<(Vec<char>, Json)>),
}

#[verifier::external_type_specification]
#[verifier::external_body]
pub struct ExValue(serde_json::Value);

/// The value that serde_json reads from a text, `None` where it rejects it.
pub uninterp spec fn parsed_json(s: Seq<char>) -> Option<Json>;

/// Relies on serde_json::from_str: parses a text as one JSON value; the
/// conversion below keeps the value's structure.
#[verifier::external_body]
pub(crate) fn parse_json(s: &str) -> (r: Option<Json>)
    ensures
        r == parsed_json(s@),
{
    serde_json::from_str::<serde_json::Value>(s).ok().map(from_value)
}

/// Relies on the variants of serde_json::Value and on the Display of
/// serde_json::Number: converts a parsed value into the library's model.
#[verifier::external_body]
fn from_value(v: serde_json::Value) -> Json {
    match v {
        serde_json::Value::Null => Json::Null,
        serde_json::Value::Bool(b) => Json::Bool(b),
        serde_json::Value::Number(n) => Json::Number(n.to_string().chars().collect()),
        serde_json::Value::String(s) => Json::Str(s.chars().collect()),
        serde_json::Value::Array(a) => Json::Array(a.into_iter().map(from_value).collect()),
        serde_json::Value::Object(m) => Json::Object(
            m.into_iter().map(|(k, x)| (k.chars().collect(), from_value(x))).collect(),
        ),
    }
}

/// Relies on str::chars: the characters of a string, in order.
#[verifier::external_body]
pub(crate) fn chars_of(s: &str) -> (r: Vec<char>)
    ensures
        r@ == s@,
{
    s.chars().collect()
}

/// Relies on String's FromIterator<&char>: a string of the given characters.
#[verifier::external_body]
pub(crate) fn string_of(v: &Vec<char>) -> (r: String)
    ensures
        r@ == v@,
{
    v.iter().collect()
}

/// The value of the first member of `members` named `key`.
pub open spec fn field(members: Seq<(Vec<char>, Json)>, key: Seq<char>) -> Option<Json>
    decreases members.len(),
{
    if members.len() == 0 {
        None
    } else if members[0].0@ == key {
        Some(members[0].1)
    } else {
        field(members.drop_first(), key)
    }
}

/// The member `key` of an object; `None` for any other value.
pub open spec fn member(v: Json, key: Seq<char>) -> Option<Json> {
    match v {
        Json::Object(m) => field(m@, key),
        _ => None,
    }
}

/// Whether two character vectors hold the same characters.
pub fn same_chars(a: &Vec<char>, b: &Vec<char>) -> (r: bool)
    ensures
        r == (a@ == b@),
{
    if a.len() != b.len() {
        return false;
    }
    let mut i: usize = 0;
    while i < a.len()
        invariant
            a@.len() == b@.len(),
            0 <= i <= a@.len(),
            a@.subrange(0, i as int) == b@.subrange(0, i as int),
        decreases a@.len() - i,
    {
        if a[i] != b[i] {
            assert(a@[i as int] != b@[i as int]);
            return false;
        }
        assert(a@.subrange(0, i + 1) =~= a@.subrange(0, i as int).push(a@[i as int]));
        assert(b@.subrange(0, i + 1) =~= b@.subrange(0, i as int).push(b@[i as int]));
        i += 1;
    }
    assert(a@ =~= a@.subrange(0, i as int));
    assert(b@ =~= b@.subrange(0, i as int));
    true
}

/// A copy of a character vector.
pub fn copy_chars(v: &Vec<char>) -> (r: Vec<char>)
    ensures
        r@ == v@,
{
    let mut r: Vec<char> = Vec::new();
    let mut i: usize = 0;
    while i < v.len()
        invariant
            0 <= i <= v@.len(),
            r@ == v@.subrange(0, i as int),
        decreases v@.len() - i,
    {
        r.push(v[i]);
        assert(v@.subrange(0, i + 1) =~= v@.subrange(0, i as int).push(v@[i as int]));
        i += 1;
    }
    assert(v@ =~= v@.subrange(0, i as int));
    r
}

/// The first member of an object's members named `key`.
pub fn find_field<'a>(members: &'a Vec<(Vec<char>, Json)>, key: &Vec<char>) -> (r: Option<&'a Json>)
    ensures
        field(members@, key@) == match r {
            Some(x) => Some(*x),
            None => None,
        },
{
    let mut i: usize = 0;
    assert(members@.subrange(0, members@.len() as int) =~= members@);
    while i < members.len()
        invariant
            0 <= i <= members@.len(),
            field(members@, key@) == field(members@.subrange(i as int, members@.len() as int), key@),
        decreases members@.len() - i,
    {
        let rest = Ghost(members@.subrange(i as int, members@.len() as int));
        assert(rest@.drop_first() =~= members@.subrange(i + 1, members@.len() as int));
        assert(rest@[0] == members@[i as int]);
        if same_chars(&members[i].0, key) {
            return Some(&members[i].1);
        }
        i += 1;
    }
    None
}

/// The member `key` of a value that is an object.
pub fn find_member<'a>(v: &'a Json, key: &Vec<char>) -> (r: Option<&'a Json>)
    ensures
        member(*v, key@) == match r {
            Some(x) => Some(*x),
            None => None,
        },
{
    match v {
        Json::Object(m) => find_field(m, key),
        _ => None,
    }
}

} // verus!
