//! Reading the fields of one log line: serde_json parses it, and the
//! document is handed over as a plain tree.

use vstd::prelude::*;

verus! {

#[verifier::external_type_specification]
#[verifier::external_body]
pub struct ExJsonValue(serde_json::Value);

/// A JSON document as plain data. A number keeps its text and, when it is
/// an integer that fits, its `u64` value; an object keeps its members.
#[derive(Debug)]
pub enum JsonTree {
    Null,
    Bool(bool),
    Number(String, Option<u64>),
    Str(String),
    Array(Vec<JsonTree>),
    Object(Vec<(String, JsonTree)>),
}

/// The document serde_json reads from a text, if it is JSON.
pub uninterp spec fn json_tree(text: Seq<char>) -> Option<JsonTree>;

/// Converts serde_json's `Value` one for one: each variant to its
/// counterpart, a number to its text (`Number`'s `Display`) and
/// `Number::as_u64`. Used by `parse_json` only.
#[verifier::external_body]
fn tree_of(v: serde_json::Value) -> JsonTree {
    match v {
        serde_json::Value::Null => JsonTree::Null,
        serde_json::Value::Bool(b) => JsonTree::Bool(b),
        serde_json::Value::Number(n) => JsonTree::Number(n.to_string(), n.as_u64()),
        serde_json::Value::String(s) => JsonTree::Str(s),
        serde_json::Value::Array(a) => JsonTree::Array(a.into_iter().map(tree_of).collect()),
        serde_json::Value::Object(o) => JsonTree::Object(o.into_iter().map(|(k, x)| (k, tree_of(x))).collect()),
    }
}

/// Relies on `serde_json::from_str::<Value>`: the document a text holds, or
/// none when the text is not JSON; the result depends on the text alone.
#[verifier::external_body]
fn parse_json(text: &str) -> (r: Option<JsonTree>)
    ensures
        r == json_tree(text@),
{
    match serde_json::from_str::<serde_json::Value>(text) {
        Ok(v) => Some(tree_of(v)),
        Err(_) => None,
    }
}

/// The first member named `key` of an object; none for a missing member or
/// a value that is not an object.
pub open spec fn member_of(t: JsonTree, key: Seq<char>) -> Option<JsonTree> {
    match t {
        JsonTree::Object(fields) => member_in(fields@, key),
        _ => None,
    }
}

pub open spec fn member_in(fields: Seq<(String, JsonTree)>, key: Seq<char>) -> Option<JsonTree>
    decreases fields.len(),
{
    if fields.len() == 0 {
        None
    } else if fields[0].0@ == key {
        Some(fields[0].1)
    } else {
        member_in(fields.drop_first(), key)
    }
}

/// The text of a string value.
pub open spec fn text_of(o: Option<JsonTree>) -> Option<String> {
    match o {
        Some(JsonTree::Str(s)) => Some(s),
        _ => None,
    }
}

/// The `u64` value of an integer that fits.
pub open spec fn count_of(o: Option<JsonTree>) -> Option<u64> {
    match o {
        Some(JsonTree::Number(_, w)) => w,
        _ => None,
    }
}

/// The text of a number.
pub open spec fn number_text_of(o: Option<JsonTree>) -> Option<String> {
    match o {
        Some(JsonTree::Number(t, _)) => Some(t),
        _ => None,
    }
}

/// A member of an optional value.
pub open spec fn member_opt(o: Option<JsonTree>, key: Seq<char>) -> Option<JsonTree> {
    match o {
        Some(t) => member_of(t, key),
        None => None,
    }
}

/// `message.usage` when present and not null.
pub open spec fn usage_of(t: JsonTree) -> Option<JsonTree> {
    match member_opt(member_of(t, "message"@), "usage"@) {
        Some(JsonTree::Null) => None,
        u => u,
    }
}

/// What the extractor reads from a document.
pub open spec fn fields_of_tree(t: JsonTree) -> LineFields {
    let message = member_of(t, "message"@);
    let usage = usage_of(t);
    LineFields {
        timestamp: text_of(member_of(t, "timestamp"@)),
        has_message: message is Some,
        has_usage: usage is Some,
        message_id: text_of(member_opt(message, "id"@)),
        request_id: text_of(member_of(t, "requestId"@)),
        input_tokens: count_of(member_opt(usage, "input_tokens"@)),
        output_tokens: count_of(member_opt(usage, "output_tokens"@)),
        cache_read_tokens: count_of(member_opt(usage, "cache_read_input_tokens"@)),
        cache_creation_tokens: count_of(member_opt(usage, "cache_creation_input_tokens"@)),
        model: text_of(member_opt(message, "model"@)),
        cwd: text_of(member_of(t, "cwd"@)),
        cost_usd: number_text_of(member_of(t, "costUSD"@)),
    }
}

/// What the extractor reads from a line: none when it is not JSON.
pub open spec fn line_fields(line: Seq<char>) -> Option<LineFields> {
    match json_tree(line) {
        Some(t) => Some(fields_of_tree(t)),
        None => None,
    }
}

/// What the record extractor reads from one line, each field as found (none
/// when missing or of another JSON type).
#[derive(Debug)]
pub struct LineFields {
    /// Top-level `timestamp`, if a string.
    pub timestamp: Option<String>,
    /// Top-level `message` is present.
    pub has_message: bool,
    /// `message.usage` is present and not null.
    pub has_usage: bool,
    /// `message.id`, if a string.
    pub message_id: Option<String>,
    /// Top-level `requestId`, if a string.
    pub request_id: Option<String>,
    /// `message.usage.input_tokens`, if a `u64`.
    pub input_tokens: Option<u64>,
    /// `message.usage.output_tokens`, if a `u64`.
    pub output_tokens: Option<u64>,
    /// `message.usage.cache_read_input_tokens`, if a `u64`.
    pub cache_read_tokens: Option<u64>,
    /// `message.usage.cache_creation_input_tokens`, if a `u64`.
    pub cache_creation_tokens: Option<u64>,
    /// `message.model`, if a string.
    pub model: Option<String>,
    /// Top-level `cwd`, if a string.
    pub cwd: Option<String>,
    /// Top-level `costUSD` as number text, if a number.
    pub cost_usd: Option<String>,
}

/// The first member named `key` of an object.
pub fn member<'a>(t: &'a JsonTree, key: &str) -> (r: Option<&'a JsonTree>)
    ensures
        match r {
            Some(x) => member_of(*t, key@) == Some(*x),
            None => member_of(*t, key@) is None,
        },
{
    match t {
        JsonTree::Object(fields) => {
            let k = String::from_str(key);
            let mut i: usize = 0;
            assert(fields@.skip(0) =~= fields@);
            while i < fields.len()
                invariant
                    i <= fields@.len(),
                    k@ == key@,
                    member_of(*t, key@) == member_in(fields@, key@),
                    member_in(fields@, key@) == member_in(fields@.skip(i as int), key@),
                decreases fields@.len() - i,
            {
                assert(fields@.skip(i as int).drop_first() =~= fields@.skip(i + 1));
                if fields[i].0 == k {
                    assert(fields@.skip(i as int)[0] == fields@[i as int]);
                    return Some(&fields[i].1);
                }
                i = i + 1;
            }
            None
        },
        _ => None,
    }
}

fn member_of_opt<'a>(o: Option<&'a JsonTree>, key: &str) -> (r: Option<&'a JsonTree>)
    ensures
        match r {
            Some(x) => member_opt(opt_value(o), key@) == Some(*x),
            None => member_opt(opt_value(o), key@) is None,
        },
{
    match o {
        Some(t) => member(t, key),
        None => None,
    }
}

/// The value behind an optional reference.
pub open spec fn opt_value(o: Option<&JsonTree>) -> Option<JsonTree> {
    match o {
        Some(x) => Some(*x),
        None => None,
    }
}

fn text_exec(o: Option<&JsonTree>) -> (r: Option<String>)
    ensures
        r == text_of(opt_value(o)),
{
    match o {
        Some(JsonTree::Str(s)) => Some(s.clone()),
        _ => None,
    }
}

fn count_exec(o: Option<&JsonTree>) -> (r: Option<u64>)
    ensures
        r == count_of(opt_value(o)),
{
    match o {
        Some(JsonTree::Number(_, w)) => *w,
        _ => None,
    }
}

fn number_text_exec(o: Option<&JsonTree>) -> (r: Option<String>)
    ensures
        r == number_text_of(opt_value(o)),
{
    match o {
        Some(JsonTree::Number(t, _)) => Some(t.clone()),
        _ => None,
    }
}

/// The fields of a document.
pub fn fields_from_tree(t: &JsonTree) -> (r: LineFields)
    ensures
        r == fields_of_tree(*t),
{
    let message = member(t, "message");
    let raw_usage = member_of_opt(message, "usage");
    let usage = match raw_usage {
        Some(JsonTree::Null) => None,
        u => u,
    };
    assert(opt_value(usage) == usage_of(*t));
    LineFields {
        timestamp: text_exec(member(t, "timestamp")),
        has_message: message.is_some(),
        has_usage: usage.is_some(),
        message_id: text_exec(member_of_opt(message, "id")),
        request_id: text_exec(member(t, "requestId")),
        input_tokens: count_exec(member_of_opt(usage, "input_tokens")),
        output_tokens: count_exec(member_of_opt(usage, "output_tokens")),
        cache_read_tokens: count_exec(member_of_opt(usage, "cache_read_input_tokens")),
        cache_creation_tokens: count_exec(member_of_opt(usage, "cache_creation_input_tokens")),
        model: text_exec(member_of_opt(message, "model")),
        cwd: text_exec(member(t, "cwd")),
        cost_usd: number_text_exec(member(t, "costUSD")),
    }
}

/// The fields of a line, or none when the line is not JSON.
pub fn read_line_fields(line: &str) -> (r: Option<LineFields>)
    ensures
        r == line_fields(line@),
{
    match parse_json(line) {
        Some(t) => Some(fields_from_tree(&t)),
        None => None,
    }
}

} // verus!
