//! Redaction of query variables before they are recorded on a span.
//!
//! Every object key that contains one of a fixed set of credential keywords
//! has its value replaced by [`SECRET_PLACEHOLDER`], whatever its type;
//! everything else keeps its shape.
use vstd::prelude::*;
use vstd::string::*;

verus! {

#[verifier::external_type_specification]
#[verifier::external_body]
pub struct ExNumber(serde_json::Number);

/// Relies on the derived `Clone` of serde_json's `Number`: the copy is the same number.
pub assume_specification[ <serde_json::Number as Clone>::clone ](n: &serde_json::Number) -> (r:
    serde_json::Number)
    ensures
        r == *n,
;

/// An input value of a GraphQL request, as the engine hands it over.
#[derive(Debug)]
pub enum Value {
    Null,
    Boolean(bool),
    String(String),
    Number(serde_json::Number),
    Enum(String),
    Object(Vec<(String, Value)>),
    List(Vec<Value>),
    /// Binary data; only its length in bytes is kept.
    Binary(usize),
}

/// The JSON-shaped value that redaction produces.
#[derive(Debug)]
pub enum Json {
    Null,
    Bool(bool),
    Number(serde_json::Number),
    String(String),
    Array(Vec<Json>),
    Object(Vec<(String, Json)>),
}

/// Text that stands for the value of a credential-like key.
pub const SECRET_PLACEHOLDER: &'static str = "<secret>";

/// `t` occurs in `s` as a contiguous run of characters.
pub open spec fn has_substring(s: Seq<char>, t: Seq<char>) -> bool {
    exists|i: int| 0 <= i && i + t.len() <= s.len() && #[trigger] s.subrange(i, i + t.len()) == t
}

/// The keywords that mark a key as holding a credential.
pub open spec fn credential_keywords() -> Seq<Seq<char>> {
    seq![
        "token"@,
        "password"@,
        "secret"@,
        "key"@,
        "apiKey"@,
        "authToken"@,
        "accessToken"@,
        "refreshToken"@,
        "credential"@,
        "credentials"@,
    ]
}

/// A key is credential-like when it equals or contains (case-sensitively)
/// one of the credential keywords.
pub open spec fn is_credential_key(key: Seq<char>) -> bool {
    exists|i: int|
        0 <= i < credential_keywords().len() && (key == credential_keywords()[i] || has_substring(
            key,
            #[trigger] credential_keywords()[i],
        ))
}

/// Relies on `str::contains` with a `&str` pattern: true exactly when the
/// pattern occurs in the string.
#[verifier::external_body]
fn str_contains(s: &str, pattern: &str) -> (r: bool)
    ensures
        r == has_substring(s@, pattern@),
{
    s.contains(pattern)
}

proof fn lemma_equal_is_substring(s: Seq<char>, t: Seq<char>)
    requires
        s == t,
    ensures
        has_substring(s, t),
{
    assert(s.subrange(0, 0 + t.len() as int) =~= t);
}

/// Whether `key` names a credential.
pub fn is_credential(key: &str) -> (r: bool)
    ensures
        r == is_credential_key(key@),
{
    let ghost ks = credential_keywords();
    let found = str_contains(key, "token") || str_contains(key, "password") || str_contains(
        key,
        "secret",
    ) || str_contains(key, "key") || str_contains(key, "apiKey") || str_contains(key, "authToken")
        || str_contains(key, "accessToken") || str_contains(key, "refreshToken") || str_contains(
        key,
        "credential",
    ) || str_contains(key, "credentials");
    proof {
        if found {
            if has_substring(key@, ks[0]) {
            } else if has_substring(key@, ks[1]) {
            } else if has_substring(key@, ks[2]) {
            } else if has_substring(key@, ks[3]) {
            } else if has_substring(key@, ks[4]) {
            } else if has_substring(key@, ks[5]) {
            } else if has_substring(key@, ks[6]) {
            } else if has_substring(key@, ks[7]) {
            } else if has_substring(key@, ks[8]) {
            } else {
                assert(has_substring(key@, ks[9]));
            }
        } else {
            assert forall|i: int| 0 <= i < ks.len() implies !(key@ == #[trigger] ks[i]
                || has_substring(key@, ks[i])) by {
                if key@ == ks[i] {
                    lemma_equal_is_substring(key@, ks[i]);
                }
            }
        }
    }
    found
}


/// The decimal digit for `d < 10`.
pub open spec fn digit_char(d: nat) -> char {
    seq!['0', '1', '2', '3', '4', '5', '6', '7', '8', '9'][d as int]
}

/// The decimal text of `n`, without sign or leading zeros.
pub open spec fn decimal(n: nat) -> Seq<char>
    decreases n,
{
    if n < 10 {
        seq![digit_char(n)]
    } else {
        decimal(n / 10) + seq![digit_char(n % 10)]
    }
}

/// Relies on `usize`'s `Display` (through `ToString`): plain decimal digits.
#[verifier::external_body]
pub(crate) fn decimal_text(n: usize) -> (r: String)
    ensures
        r@ == decimal(n as nat),
{
    n.to_string()
}

/// The text that stands for binary data of `len` bytes.
pub open spec fn binary_text(len: nat) -> Seq<char> {
    "<binary len="@ + decimal(len) + ">"@
}

/// `j` is the placeholder string for a credential.
pub open spec fn is_secret(j: Json) -> bool {
    match j {
        Json::String(t) => t@ == SECRET_PLACEHOLDER@,
        _ => false,
    }
}

/// `j` is a JSON string holding `text`.
pub open spec fn is_json_text(j: Json, text: Seq<char>) -> bool {
    match j {
        Json::String(t) => t@ == text,
        _ => false,
    }
}

/// `r` is the redaction of `v`: same shape, scalars kept, enum names and
/// binary lengths as strings, and under every credential-like object key
/// the placeholder.
pub open spec fn redacts_to(v: Value, r: Json) -> bool
    decreases v,
{
    match v {
        Value::Null => r == Json::Null,
        Value::Boolean(b) => r == Json::Bool(b),
        Value::Number(n) => r == Json::Number(n),
        Value::String(s) => is_json_text(r, s@),
        Value::Enum(name) => is_json_text(r, name@),
        Value::Binary(len) => is_json_text(r, binary_text(len as nat)),
        Value::List(items) => match r {
            Json::Array(rs) => rs.len() == items.len() && forall|i: int|
                0 <= i < items.len() ==> redacts_to(#[trigger] items@[i], rs@[i]),
            _ => false,
        },
        Value::Object(entries) => match r {
            Json::Object(rs) => rs.len() == entries.len() && forall|i: int|
                0 <= i < entries.len() ==> entry_redacts(#[trigger] entries@[i], rs@[i]),
            _ => false,
        },
    }
}

/// One object entry after redaction: the key is kept, and its value is the
/// placeholder or the redaction of the entry's value.
pub open spec fn entry_redacts(e: (String, Value), r: (String, Json)) -> bool
    decreases e,
{
    r.0@ == e.0@ && if is_credential_key(e.0@) {
        is_secret(r.1)
    } else {
        redacts_to(e.1, r.1)
    }
}

fn secret_json() -> (r: Json)
    ensures
        is_secret(r),
{
    Json::String(String::from_str(SECRET_PLACEHOLDER))
}

fn redact_entry(e: &(String, Value)) -> (r: (String, Json))
    ensures
        entry_redacts(*e, r),
    decreases e,
{
    let value = if is_credential(e.0.as_str()) {
        secret_json()
    } else {
        serialize_const_value(&e.1)
    };
    (e.0.clone(), value)
}

/// Redacts the entries of an object, keeping their order.
pub fn serialize_entries(entries: &Vec<(String, Value)>) -> (r: Vec<(String, Json)>)
    ensures
        r.len() == entries.len(),
        forall|i: int| 0 <= i < entries.len() ==> entry_redacts(#[trigger] entries@[i], r@[i]),
    decreases entries,
{
    let mut out: Vec<(String, Json)> = Vec::new();
    let mut i: usize = 0;
    while i < entries.len()
        invariant
            i <= entries.len(),
            out.len() == i,
            forall|j: int| 0 <= j < i ==> entry_redacts(#[trigger] entries@[j], out@[j]),
        decreases entries.len() - i,
    {
        let r = redact_entry(&entries[i]);
        out.push(r);
        i += 1;
    }
    out
}

/// Redacts the elements of a list, keeping their order.
pub fn serialize_items(items: &Vec<Value>) -> (r: Vec<Json>)
    ensures
        r.len() == items.len(),
        forall|i: int| 0 <= i < items.len() ==> redacts_to(#[trigger] items@[i], r@[i]),
    decreases items,
{
    let mut out: Vec<Json> = Vec::new();
    let mut i: usize = 0;
    while i < items.len()
        invariant
            i <= items.len(),
            out.len() == i,
            forall|j: int| 0 <= j < i ==> redacts_to(#[trigger] items@[j], out@[j]),
        decreases items.len() - i,
    {
        let r = serialize_const_value(&items[i]);
        out.push(r);
        i += 1;
    }
    out
}

/// Redacts one value.
pub fn serialize_const_value(value: &Value) -> (r: Json)
    ensures
        redacts_to(*value, r),
    decreases value,
{
    match value {
        Value::Binary(len) => {
            let mut t = String::from_str("<binary len=");
            let digits = decimal_text(*len);
            t.append(digits.as_str());
            t.append(">");
            Json::String(t)
        },
        Value::Null => Json::Null,
        Value::Boolean(b) => Json::Bool(*b),
        Value::String(s) => Json::String(s.clone()),
        Value::Number(n) => Json::Number(n.clone()),
        Value::Enum(name) => Json::String(name.clone()),
        Value::Object(entries) => Json::Object(serialize_entries(entries)),
        Value::List(items) => Json::Array(serialize_items(items)),
    }
}

/// Redacts the variables of a request: the top level is treated as an
/// object, so its credential-like keys are masked as well.
pub fn serialize_variables(variables: &Vec<(String, Value)>) -> (r: Json)
    ensures
        redacts_to(Value::Object(*variables), r),
{
    Json::Object(serialize_entries(variables))
}


/// No object key anywhere inside `v` is credential-like.
pub open spec fn no_credential_keys(v: Value) -> bool
    decreases v,
{
    match v {
        Value::List(items) => forall|i: int|
            0 <= i < items.len() ==> no_credential_keys(#[trigger] items@[i]),
        Value::Object(entries) => forall|i: int|
            0 <= i < entries.len() ==> !is_credential_key(#[trigger] entries@[i].0@)
                && no_credential_keys(entries@[i].1),
        _ => true,
    }
}

/// `r` has the shape of `v` with every scalar kept: keys and their order,
/// strings, booleans and numbers as they were, enum names as strings and
/// binary data as its length.
pub open spec fn mirrors(v: Value, r: Json) -> bool
    decreases v,
{
    match v {
        Value::List(items) => match r {
            Json::Array(rs) => rs.len() == items.len() && forall|i: int|
                0 <= i < items.len() ==> mirrors(#[trigger] items@[i], rs@[i]),
            _ => false,
        },
        Value::Object(entries) => match r {
            Json::Object(rs) => rs.len() == entries.len() && forall|i: int|
                0 <= i < entries.len() ==> rs@[i].0@ == (#[trigger] entries@[i]).0@ && mirrors(
                    entries@[i].1,
                    rs@[i].1,
                ),
            _ => false,
        },
        _ => redacts_to(v, r),
    }
}

/// A key that equals or contains a credential keyword has the placeholder
/// as its redacted value, whatever the value was.
pub proof fn law_credential_value_masked(
    entries: Vec<(String, Value)>,
    r: Json,
    i: int,
    k: int,
)
    requires
        redacts_to(Value::Object(entries), r),
        0 <= i < entries.len(),
        0 <= k < credential_keywords().len(),
        entries@[i].0@ == credential_keywords()[k] || has_substring(
            entries@[i].0@,
            credential_keywords()[k],
        ),
    ensures
        match r {
            Json::Object(rs) => i < rs.len() && rs@[i].0@ == entries@[i].0@ && is_secret(rs@[i].1),
            _ => false,
        },
{
    assert(is_credential_key(entries@[i].0@));
    assert(entry_redacts(entries@[i], r->Object_0@[i]));
}

/// Where no key is credential-like, redaction loses nothing: the result has
/// the shape and the scalar values of the input.
pub proof fn law_redaction_keeps_plain_values(v: Value, r: Json)
    requires
        no_credential_keys(v),
        redacts_to(v, r),
    ensures
        mirrors(v, r),
    decreases v,
{
    match v {
        Value::List(items) => {
            let rs = r->Array_0;
            assert forall|i: int| 0 <= i < items.len() implies mirrors(
                #[trigger] items@[i],
                rs@[i],
            ) by {
                law_redaction_keeps_plain_values(items@[i], rs@[i]);
            }
        },
        Value::Object(entries) => {
            let rs = r->Object_0;
            assert forall|i: int| 0 <= i < entries.len() implies rs@[i].0@ == (
            #[trigger] entries@[i]).0@ && mirrors(entries@[i].1, rs@[i].1) by {
                assert(entry_redacts(entries@[i], rs@[i]));
                law_redaction_keeps_plain_values(entries@[i].1, rs@[i].1);
            }
        },
        _ => {},
    }
}

} // verus!
