//! JSON values as plain data, reading and writing JSON text, and what the
//! editor reads of JSON values.
use vstd::prelude::*;
use vstd::string::*;

use crate::jsonc::{invalid_jsonc_message, stripped, strip_jsonc};

verus! {

#[verifier::external_type_specification]
#[verifier::external_body]
pub struct ExJsonNumber(serde_json::Number);

#[verifier::external_type_specification]
#[verifier::external_body]
pub struct ExJsonTree(serde_json::Value);

/// A JSON value. A number is held as serde_json holds it; nothing here reads it.
pub enum JsonValue {
    Null,
    Bool(bool),
    Number(serde_json::Number),
    Str(String),
    Array(Vec<JsonValue>),
    Object(Vec<(String, JsonValue)>),
}

/// The value of the first member named `key`, if any.
pub open spec fn member(entries: Seq<(String, JsonValue)>, key: Seq<char>) -> Option<JsonValue>
    decreases entries.len(),
{
    if entries.len() == 0 {
        None
    } else if entries[0].0@ == key {
        Some(entries[0].1)
    } else {
        member(entries.drop_first(), key)
    }
}

/// What `value.get(key)` gives: the member `key` of an object, else nothing.
pub open spec fn field(v: JsonValue, key: Seq<char>) -> Option<JsonValue> {
    match v {
        JsonValue::Object(es) => member(es@, key),
        _ => None,
    }
}

/// The member `key` of `v`, if `v` is an object that has it.
pub fn get_field<'a>(v: &'a JsonValue, key: &String) -> (res: Option<&'a JsonValue>)
    ensures
        res matches Some(r) ==> field(*v, key@) == Some(*r),
        res is None <==> field(*v, key@) is None,
{
    match v {
        JsonValue::Object(es) => {
            let n = es.len();
            let mut i: usize = 0;
            proof {
                assert(es@.skip(0) =~= es@);
            }
            while i < n
                invariant
                    n == es@.len(),
                    i <= n,
                    member(es@, key@) == member(es@.skip(i as int), key@),
                    field(*v, key@) == member(es@, key@),
                decreases n - i,
            {
                if es[i].0 == *key {
                    proof {
                        assert(es@.skip(i as int)[0] == es@[i as int]);
                    }
                    return Some(&es[i].1);
                }
                proof {
                    assert(es@.skip(i as int).drop_first() =~= es@.skip(i + 1));
                }
                i = i + 1;
            }
            None
        },
        _ => None,
    }
}

/// The text `provider`.
pub open spec fn provider_key() -> Seq<char> {
    seq!['p', 'r', 'o', 'v', 'i', 'd', 'e', 'r']
}

/// The message with which a configuration without `provider` is refused.
pub open spec fn provider_required_message() -> Seq<char> {
    seq!['p', 'r', 'o', 'v', 'i', 'd', 'e', 'r', ' ', 'r', 'e', 'q', 'u', 'i', 'r', 'e', 'd']
}

/// A configuration can be written only where it has a `provider` member;
/// else it is refused with "provider required".
pub fn check_writable(config: &JsonValue) -> (res: Result<(), String>)
    ensures
        res is Ok <==> field(*config, provider_key()) is Some,
        res matches Err(e) ==> e@ == provider_required_message(),
{
    let key = String::from_str("provider");
    proof {
        reveal_strlit("provider");
        assert(key@ =~= provider_key());
    }
    match get_field(config, &key) {
        Some(_) => Ok(()),
        None => {
            let e = String::from_str("provider required");
            proof {
                reveal_strlit("provider required");
                assert(e@ =~= provider_required_message());
            }
            Err(e)
        },
    }
}

/// The text `$schema`.
pub open spec fn schema_key() -> Seq<char> {
    seq!['$', 's', 'c', 'h', 'e', 'm', 'a']
}

/// The address of the configuration schema.
pub open spec fn schema_url() -> Seq<char> {
    seq!['h', 't', 't', 'p', 's', ':', '/', '/', 'o', 'p', 'e', 'n', 'c', 'o', 'd', 'e', '.', 'a', 'i', '/',
        'c', 'o', 'n', 'f', 'i', 'g', '.', 'j', 's', 'o', 'n']
}

/// The configuration that stands for a file that does not exist:
/// `{"$schema": "https://opencode.ai/config.json", "provider": {}}`.
pub fn default_config() -> (v: JsonValue)
    ensures
        v matches JsonValue::Object(es) && es@.len() == 2
            && es@[0].0@ == schema_key() && (es@[0].1 matches JsonValue::Str(s) && s@ == schema_url())
            && es@[1].0@ == provider_key() && (es@[1].1 matches JsonValue::Object(ps) && ps@.len() == 0),
        field(v, provider_key()) is Some,
{
    let k1 = String::from_str("$schema");
    let v1 = String::from_str("https://opencode.ai/config.json");
    let k2 = String::from_str("provider");
    proof {
        reveal_strlit("$schema");
        reveal_strlit("https://opencode.ai/config.json");
        reveal_strlit("provider");
        assert(k1@ =~= schema_key());
        assert(v1@ =~= schema_url());
        assert(k2@ =~= provider_key());
    }
    let mut es: Vec<(String, JsonValue)> = Vec::new();
    es.push((k1, JsonValue::Str(v1)));
    es.push((k2, JsonValue::Object(Vec::new())));
    proof {
        assert(schema_key()[0] != provider_key()[0]);
        assert(es@[0].0@ != provider_key());
        assert(es@.drop_first()[0] == es@[1]);
        assert(es@.drop_first().len() == 1);
        assert(member(es@.drop_first(), provider_key()) == Some(es@[1].1));
        assert(member(es@, provider_key()) == member(es@.drop_first(), provider_key()));
    }
    JsonValue::Object(es)
}

/// A serde_json value as a [`JsonValue`], variant for variant.
#[verifier::external_body]
fn from_tree(v: serde_json::Value) -> JsonValue {
    match v {
        serde_json::Value::Null => JsonValue::Null,
        serde_json::Value::Bool(b) => JsonValue::Bool(b),
        serde_json::Value::Number(n) => JsonValue::Number(n),
        serde_json::Value::String(t) => JsonValue::Str(t),
        serde_json::Value::Array(a) => JsonValue::Array(a.into_iter().map(from_tree).collect()),
        serde_json::Value::Object(o) => JsonValue::Object(o.into_iter().map(|(k, x)| (k, from_tree(x))).collect()),
    }
}

/// A [`JsonValue`] as a serde_json value, variant for variant.
#[verifier::external_body]
fn to_tree(v: &JsonValue) -> serde_json::Value {
    match v {
        JsonValue::Null => serde_json::Value::Null,
        JsonValue::Bool(b) => serde_json::Value::Bool(*b),
        JsonValue::Number(n) => serde_json::Value::Number(n.clone()),
        JsonValue::Str(t) => serde_json::Value::String(t.clone()),
        JsonValue::Array(a) => serde_json::Value::Array(a.iter().map(to_tree).collect()),
        JsonValue::Object(o) => serde_json::Value::Object(o.iter().map(|(k, x)| (k.clone(), to_tree(x))).collect()),
    }
}

/// What `serde_json::from_str::<serde_json::Value>` makes of a text: the
/// value it reads, or the text of its error.
pub uninterp spec fn json_reading(text: Seq<char>) -> Result<JsonValue, Seq<char>>;

/// Reads JSON text: calls `serde_json::from_str` into a `serde_json::Value`
/// and gives back that value, or the error's text. The contract claims only
/// that the outcome is the one fixed reading of the text; the JSON grammar
/// and serde_json's error messages are not restated here.
#[verifier::external_body]
pub(crate) fn read_json(text: &str) -> (r: Result<JsonValue, String>)
    ensures
        r is Ok ==> json_reading(text@) == Ok::<JsonValue, Seq<char>>(r->Ok_0),
        r is Err ==> json_reading(text@) == Err::<JsonValue, Seq<char>>(r->Err_0@),
{
    match serde_json::from_str::<serde_json::Value>(text) {
        Ok(v) => Ok(from_tree(v)),
        Err(e) => Err(e.to_string()),
    }
}

/// What `serde_json::to_string_pretty` makes of a JSON value: its text, or
/// the text of its error.
pub uninterp spec fn json_pretty(v: JsonValue) -> Result<Seq<char>, Seq<char>>;

/// Writes a JSON value as indented text: calls `serde_json::to_string_pretty`
/// on it as a `serde_json::Value`. The contract claims only that the outcome
/// is the one fixed writing of the value; the layout is not restated here.
#[verifier::external_body]
pub(crate) fn pretty_json(v: &JsonValue) -> (r: Result<String, String>)
    ensures
        r is Ok ==> json_pretty(*v) == Ok::<Seq<char>, Seq<char>>(r->Ok_0@),
        r is Err ==> json_pretty(*v) == Err::<Seq<char>, Seq<char>>(r->Err_0@),
{
    serde_json::to_string_pretty(&to_tree(v)).map_err(|e| e.to_string())
}

/// The text `Parse: `.
pub open spec fn parse_prefix() -> Seq<char> {
    seq!['P', 'a', 'r', 's', 'e', ':', ' ']
}

/// The text `Ser: `.
pub open spec fn ser_prefix() -> Seq<char> {
    seq!['S', 'e', 'r', ':', ' ']
}

/// The configuration that the text of a configuration file holds: its
/// comments stripped ("JSONC invalid" where a string or block comment is left
/// open), then read as JSON ("Parse: " and the error where it is not JSON).
pub fn config_value(raw: &str) -> (r: Result<JsonValue, String>)
    ensures
        stripped(raw@) is None ==> (r matches Err(e) && e@ == invalid_jsonc_message()),
        (stripped(raw@) matches Some(t) && json_reading(t) matches Ok(v)) ==> r == Ok::<JsonValue, String>(
            json_reading(stripped(raw@)->0)->Ok_0,
        ),
        (stripped(raw@) matches Some(t) && json_reading(t) matches Err(m)) ==> (r matches Err(e) && e@
            == parse_prefix() + json_reading(stripped(raw@)->0)->Err_0),
{
    let clean = match strip_jsonc(raw) {
        Some(c) => c,
        None => {
            let e = String::from_str("JSONC invalid");
            proof {
                reveal_strlit("JSONC invalid");
                assert(e@ =~= invalid_jsonc_message());
            }
            return Err(e);
        },
    };
    match read_json(clean.as_str()) {
        Ok(v) => Ok(v),
        Err(m) => {
            let mut e = String::from_str("Parse: ");
            proof {
                reveal_strlit("Parse: ");
            }
            e.append(m.as_str());
            proof {
                assert(e@ =~= parse_prefix() + m@);
            }
            Err(e)
        },
    }
}

/// The text to write for a configuration: refused with "provider required"
/// where it has no `provider` member; else its indented JSON text and a line
/// break ("Ser: " and the error where it cannot be written).
pub fn config_file_text(config: &JsonValue) -> (r: Result<String, String>)
    ensures
        field(*config, provider_key()) is None ==> (r matches Err(e) && e@ == provider_required_message()),
        (field(*config, provider_key()) is Some && json_pretty(*config) matches Ok(t)) ==> (r matches Ok(out)
            && out@ == json_pretty(*config)->Ok_0.push('\n')),
        (field(*config, provider_key()) is Some && json_pretty(*config) matches Err(m)) ==> (r matches Err(e)
            && e@ == ser_prefix() + json_pretty(*config)->Err_0),
{
    check_writable(config)?;
    match pretty_json(config) {
        Ok(t) => {
            let mut out = t;
            out.append("\n");
            proof {
                reveal_strlit("\n");
                assert(out@ =~= json_pretty(*config)->Ok_0.push('\n'));
            }
            Ok(out)
        },
        Err(m) => {
            let mut e = String::from_str("Ser: ");
            proof {
                reveal_strlit("Ser: ");
            }
            e.append(m.as_str());
            proof {
                assert(e@ =~= ser_prefix() + m@);
            }
            Err(e)
        },
    }
}

} // verus!
