//! Endpoint discovery for the burst-protocol adapter: a JSON document maps
//! authorities to workers, and each worker names its transactions endpoint.

use crate::common::TestrpcError;
use vstd::prelude::*;
use vstd::string::StringExecFns;

verus! {

/// A JSON value, as the discovery logic reads it.
#[derive(Debug)]
pub enum JsonValue {
    Null,
    Bool(bool),
    /// A number, in its textual form.
    Number(String),
    Str(String),
    Array(Vec<JsonValue>),
    /// An object's members, in the order the parser yields them.
    Object(Vec<(String, JsonValue)>),
}

#[verifier::external_type_specification]
#[verifier::external_body]
pub struct ExJsonValue(serde_json::Value);

/// The document that a text parses to, or `None` when it is not JSON.
pub uninterp spec fn parsed_json(text: Seq<char>) -> Option<JsonValue>;

/// `s` without leading and trailing white space.
pub uninterp spec fn trim_of(s: Seq<char>) -> Seq<char>;

/// Relies on serde_json's `Value` enum: each variant is carried over with
/// its contents (a number by its `to_string`).
#[verifier::external_body]
fn json_from_serde(v: &serde_json::Value) -> JsonValue {
    match v {
        serde_json::Value::Null => JsonValue::Null,
        serde_json::Value::Bool(b) => JsonValue::Bool(*b),
        serde_json::Value::Number(n) => JsonValue::Number(n.to_string()),
        serde_json::Value::String(s) => JsonValue::Str(s.clone()),
        serde_json::Value::Array(a) => JsonValue::Array(a.iter().map(json_from_serde).collect()),
        serde_json::Value::Object(m) => JsonValue::Object(
            m.iter().map(|(k, x)| (k.clone(), json_from_serde(x))).collect(),
        ),
    }
}

/// Relies on serde_json::from_str: a document for JSON text, an error
/// message otherwise; the outcome depends on the text alone.
#[verifier::external_body]
fn parse_json(text: &str) -> (r: Result<JsonValue, String>)
    ensures
        r is Err <==> parsed_json(text@) is None,
        r matches Ok(v) ==> parsed_json(text@) == Some(v),
{
    match serde_json::from_str::<serde_json::Value>(text) {
        Ok(v) => Ok(json_from_serde(&v)),
        Err(e) => Err(e.to_string()),
    }
}

/// Relies on str::trim: leading and trailing white space removed.
#[verifier::external_body]
fn trim_text(s: &str) -> (r: String)
    ensures
        r@ == trim_of(s@),
{
    s.trim().to_string()
}

/// The first member named `key`.
pub open spec fn member(fields: Seq<(String, JsonValue)>, key: Seq<char>) -> Option<JsonValue>
    decreases fields.len(),
{
    if fields.len() == 0 {
        None
    } else if fields[0].0@ == key {
        Some(fields[0].1)
    } else {
        member(fields.drop_first(), key)
    }
}

/// The member `key` of an object; `None` for anything else.
pub open spec fn get_field(v: JsonValue, key: Seq<char>) -> Option<JsonValue> {
    match v {
        JsonValue::Object(fields) => member(fields@, key),
        _ => None,
    }
}

/// A worker's transactions endpoint, when it is a string.
pub open spec fn worker_endpoint(w: JsonValue) -> Option<Seq<char>> {
    match get_field(w, "transactions"@) {
        Some(JsonValue::Str(s)) => Some(s@),
        _ => None,
    }
}

/// Endpoints of a sequence of workers, in order.
pub open spec fn worker_endpoints(ws: Seq<(String, JsonValue)>) -> Seq<Seq<char>>
    decreases ws.len(),
{
    if ws.len() == 0 {
        Seq::empty()
    } else {
        let prev = worker_endpoints(ws.drop_last());
        match worker_endpoint(ws.last().1) {
            Some(e) => prev.push(e),
            None => prev,
        }
    }
}

/// Endpoints of one authority: those of its `workers` object, if any.
pub open spec fn authority_endpoints(a: JsonValue) -> Seq<Seq<char>> {
    match get_field(a, "workers"@) {
        Some(JsonValue::Object(ws)) => worker_endpoints(ws@),
        _ => Seq::empty(),
    }
}

/// Endpoints of a sequence of authorities, in order.
pub open spec fn all_endpoints(auths: Seq<(String, JsonValue)>) -> Seq<Seq<char>>
    decreases auths.len(),
{
    if auths.len() == 0 {
        Seq::empty()
    } else {
        all_endpoints(auths.drop_last()) + authority_endpoints(auths.last().1)
    }
}

/// Finds the member `key` of an object.
pub fn find_member<'a>(v: &'a JsonValue, key: &str) -> (r: Option<&'a JsonValue>)
    ensures
        r matches Some(x) ==> get_field(*v, key@) == Some(*x),
        r is None ==> get_field(*v, key@) is None,
{
    match v {
        JsonValue::Object(fields) => {
            let k = String::from_str(key);
            let mut i: usize = 0;
            assert(fields@.skip(0) =~= fields@);
            while i < fields.len()
                invariant
                    i <= fields@.len(),
                    k@ == key@,
                    *v == JsonValue::Object(*fields),
                    member(fields@, key@) == member(fields@.skip(i as int), key@),
                decreases fields@.len() - i,
            {
                assert(fields@.skip(i as int).drop_first() =~= fields@.skip(i + 1));
                assert(fields@.skip(i as int)[0] == fields@[i as int]);
                if fields[i].0 == k {
                    return Some(&fields[i].1);
                }
                i = i + 1;
            }
            None
        },
        _ => None,
    }
}

/// The views of a vector of strings.
pub open spec fn views(v: Seq<String>) -> Seq<Seq<char>> {
    v.map_values(|s: String| s@)
}

fn push_worker_endpoints(out: &mut Vec<String>, ws: &Vec<(String, JsonValue)>)
    ensures
        views(final(out)@) == views(old(out)@) + worker_endpoints(ws@),
{
    let mut i: usize = 0;
    let ghost start = views(out@);
    while i < ws.len()
        invariant
            i <= ws@.len(),
            views(out@) == start + worker_endpoints(ws@.take(i as int)),
        decreases ws@.len() - i,
    {
        assert(ws@.take(i + 1).drop_last() =~= ws@.take(i as int));
        assert(ws@.take(i + 1).last() == ws@[i as int]);
        if let Some(JsonValue::Str(s)) = find_member(&ws[i].1, "transactions") {
            let ghost before = out@;
            out.push(s.clone());
            assert(views(out@) =~= views(before).push(s@));
            assert(views(out@) =~= start + worker_endpoints(ws@.take(i + 1)));
        } else {
            assert(views(out@) =~= start + worker_endpoints(ws@.take(i + 1)));
        }
        i = i + 1;
    }
    assert(ws@.take(i as int) =~= ws@);
}

/// Text of the error for a document without `authorities`.
pub open spec fn no_authorities_text() -> Seq<char> {
    "Config file must contain 'authorities' object"@
}

/// Text of the error for an `authorities` member that is not an object.
pub open spec fn authorities_not_object_text() -> Seq<char> {
    "Expected 'authorities' to be an object"@
}

/// Text of the error for a document that names no endpoint.
pub open spec fn no_endpoints_text() -> Seq<char> {
    "No transaction endpoints found in config file"@
}

/// Collects the transactions endpoints of a discovery document, in
/// document order. A missing `authorities` member, one that is not an
/// object, and a document with no endpoint at all are distinct errors.
pub fn transaction_endpoints(doc: &JsonValue) -> (r: Result<Vec<String>, TestrpcError>)
    ensures
        get_field(*doc, "authorities"@) is None ==> (r matches Err(
            TestrpcError::LoadEndpointsError(m),
        ) && m@ == no_authorities_text()),
        get_field(*doc, "authorities"@) matches Some(a) ==> match a {
            JsonValue::Object(auths) => if all_endpoints(auths@).len() == 0 {
                r matches Err(TestrpcError::LoadEndpointsError(m)) && m@ == no_endpoints_text()
            } else {
                r matches Ok(v) && views(v@) == all_endpoints(auths@)
            },
            _ => r matches Err(TestrpcError::LoadEndpointsError(m)) && m@
                == authorities_not_object_text(),
        },
{
    let authorities = match find_member(doc, "authorities") {
        Some(a) => a,
        None => {
            return Err(
                TestrpcError::LoadEndpointsError(
                    String::from_str("Config file must contain 'authorities' object"),
                ),
            );
        },
    };
    let auths = match authorities {
        JsonValue::Object(auths) => auths,
        _ => {
            return Err(
                TestrpcError::LoadEndpointsError(
                    String::from_str("Expected 'authorities' to be an object"),
                ),
            );
        },
    };
    let mut out: Vec<String> = Vec::new();
    let mut i: usize = 0;
    assert(views(out@) =~= Seq::<Seq<char>>::empty());
    while i < auths.len()
        invariant
            i <= auths@.len(),
            views(out@) == all_endpoints(auths@.take(i as int)),
        decreases auths@.len() - i,
    {
        assert(auths@.take(i + 1).drop_last() =~= auths@.take(i as int));
        assert(auths@.take(i + 1).last() == auths@[i as int]);
        if let Some(JsonValue::Object(ws)) = find_member(&auths[i].1, "workers") {
            push_worker_endpoints(&mut out, ws);
        }
        assert(views(out@) =~= all_endpoints(auths@.take(i + 1)));
        i = i + 1;
    }
    assert(auths@.take(i as int) =~= auths@);
    if out.len() == 0 {
        return Err(
            TestrpcError::LoadEndpointsError(
                String::from_str("No transaction endpoints found in config file"),
            ),
        );
    }
    Ok(out)
}


/// The endpoints that a discovery document names, untrimmed; `None` when
/// discovery fails on it.
pub open spec fn discovered(doc: JsonValue) -> Option<Seq<Seq<char>>> {
    match get_field(doc, "authorities"@) {
        Some(JsonValue::Object(auths)) => if all_endpoints(auths@).len() == 0 {
            None
        } else {
            Some(all_endpoints(auths@))
        },
        _ => None,
    }
}

/// Each string with white space trimmed at both ends.
pub fn trim_all(v: &Vec<String>) -> (r: Vec<String>)
    ensures
        views(r@) == views(v@).map_values(|s: Seq<char>| trim_of(s)),
{
    let mut r: Vec<String> = Vec::new();
    let mut i: usize = 0;
    while i < v.len()
        invariant
            i <= v@.len(),
            views(r@) == views(v@.take(i as int)).map_values(|s: Seq<char>| trim_of(s)),
        decreases v@.len() - i,
    {
        let t = trim_text(v[i].as_str());
        let ghost before = r@;
        r.push(t);
        assert(views(r@) =~= views(v@.take(i + 1)).map_values(|s: Seq<char>| trim_of(s))) by {
            assert(views(r@) =~= views(before).push(t@));
            assert(v@.take(i + 1) =~= v@.take(i as int).push(v@[i as int]));
        }
        i = i + 1;
    }
    assert(v@.take(i as int) =~= v@);
    r
}

/// Reads the endpoints named by the discovery document `content` (read from
/// `file_path`), trimmed. Fails when the text is not JSON or when
/// `transaction_endpoints` fails on the document.
pub fn nodes_from_config_text(file_path: &str, content: &str) -> (r: Result<Vec<String>, TestrpcError>)
    ensures
        r is Ok <==> (parsed_json(content@) matches Some(doc) && discovered(doc) is Some),
        r is Err ==> (r matches Err(TestrpcError::LoadEndpointsError(_))),
        r matches Ok(v) ==> views(v@) == discovered(parsed_json(content@)->Some_0)->Some_0.map_values(
            |s: Seq<char>| trim_of(s),
        ),
{
    let doc = match parse_json(content) {
        Ok(d) => d,
        Err(e) => {
            let mut m = String::from_str("Failed to parse config file ");
            m.append(file_path);
            m.append(": ");
            m.append(e.as_str());
            return Err(TestrpcError::LoadEndpointsError(m));
        },
    };
    match transaction_endpoints(&doc) {
        Ok(v) => Ok(trim_all(&v)),
        Err(e) => Err(e),
    }
}

} // verus!
