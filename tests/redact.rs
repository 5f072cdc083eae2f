use graphql_tracing::redact::{is_credential, serialize_const_value, serialize_variables, Json, Value};

fn text(j: &Json) -> String {
    match j {
        Json::String(s) => s.clone(),
        _ => panic!("not a string"),
    }
}

fn entries(j: &Json) -> &Vec<(String, Json)> {
    match j {
        Json::Object(es) => es,
        _ => panic!("not an object"),
    }
}

#[test]
fn credential_keys_exact_and_substring() {
    assert!(is_credential("token"));
    assert!(is_credential("password"));
    assert!(is_credential("apiKey"));
    assert!(is_credential("credentials"));
    assert!(is_credential("user_password"));
    assert!(is_credential("monkey"));
    assert!(is_credential("mySecretValue") == false);
    assert!(is_credential("name") == false);
    assert!(is_credential("Token") == false);
    assert!(is_credential("") == false);
}

#[test]
fn credential_value_masked_whatever_its_type() {
    let vars = vec![
        ("token".to_string(), Value::Number(serde_json::Number::from(7))),
        ("user_password".to_string(), Value::String("hunter2".to_string())),
        ("authToken".to_string(), Value::Object(vec![("a".to_string(), Value::Null)])),
        ("name".to_string(), Value::String("alice".to_string())),
    ];
    let r = serialize_variables(&vars);
    let es = entries(&r);
    assert_eq!(es.len(), 4);
    assert_eq!(es[0].0, "token");
    assert_eq!(text(&es[0].1), "<secret>");
    assert_eq!(text(&es[1].1), "<secret>");
    assert_eq!(text(&es[2].1), "<secret>");
    assert_eq!(es[3].0, "name");
    assert_eq!(text(&es[3].1), "alice");
}

#[test]
fn nested_credential_masked() {
    let inner = Value::Object(vec![
        ("accessToken".to_string(), Value::String("abc".to_string())),
        ("id".to_string(), Value::Number(serde_json::Number::from(3))),
    ]);
    let v = Value::List(vec![inner]);
    let r = serialize_const_value(&v);
    match r {
        Json::Array(items) => {
            assert_eq!(items.len(), 1);
            let es = entries(&items[0]);
            assert_eq!(text(&es[0].1), "<secret>");
            assert!(matches!(&es[1].1, Json::Number(n) if *n == serde_json::Number::from(3)));
        }
        _ => panic!("not an array"),
    }
}

#[test]
fn plain_values_kept() {
    let big = serde_json::Number::from(u64::MAX);
    let v = Value::Object(vec![
        ("n".to_string(), Value::Null),
        ("b".to_string(), Value::Boolean(true)),
        ("x".to_string(), Value::Number(big.clone())),
        ("s".to_string(), Value::String("hi".to_string())),
        ("e".to_string(), Value::Enum("RED".to_string())),
        ("l".to_string(), Value::List(vec![Value::Boolean(false)])),
    ]);
    let r = serialize_const_value(&v);
    let es = entries(&r);
    assert_eq!(es.len(), 6);
    let keys: Vec<&str> = es.iter().map(|e| e.0.as_str()).collect();
    assert_eq!(keys, vec!["n", "b", "x", "s", "e", "l"]);
    assert!(matches!(es[0].1, Json::Null));
    assert!(matches!(es[1].1, Json::Bool(true)));
    assert!(matches!(&es[2].1, Json::Number(n) if *n == big));
    assert_eq!(text(&es[3].1), "hi");
    assert_eq!(text(&es[4].1), "RED");
    assert!(matches!(&es[5].1, Json::Array(a) if a.len() == 1 && matches!(a[0], Json::Bool(false))));
}

#[test]
fn binary_reported_by_length() {
    assert_eq!(text(&serialize_const_value(&Value::Binary(0))), "<binary len=0>");
    assert_eq!(text(&serialize_const_value(&Value::Binary(1234))), "<binary len=1234>");
}

#[test]
fn empty_variables() {
    let r = serialize_variables(&vec![]);
    assert_eq!(entries(&r).len(), 0);
}
