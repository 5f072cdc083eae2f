use graphql_tracing::resolve::{field_span, ResolveInfo, SpanLedger};

fn info(path: &str, introspection: bool) -> ResolveInfo {
    ResolveInfo {
        path: path.to_string(),
        parent_type: "Query".to_string(),
        return_type: "User".to_string(),
        is_for_introspection: introspection,
    }
}

#[test]
fn introspection_error_on_enclosing_span() {
    let mut l = SpanLedger::new("execute".to_string());
    l.resolve_field(&info("__schema", true), &Err("bad".to_string()));
    assert_eq!(l.spans.len(), 1);
    assert_eq!(l.spans[0].error_events, vec!["bad".to_string()]);
    assert!(!l.spans[0].ended);
    l.resolve_field(&info("__type", true), &Ok(()));
    assert_eq!(l.spans.len(), 1);
    assert_eq!(l.spans[0].error_events.len(), 1);
}

#[test]
fn field_span_created_and_ended_once() {
    let mut l = SpanLedger::new("execute".to_string());
    l.resolve_field(&info("user", false), &Ok(()));
    l.resolve_field(&info("user.name", false), &Err("boom".to_string()));
    assert_eq!(l.spans.len(), 3);
    assert_eq!(l.spans[1].name, "user");
    assert!(l.spans[1].ended && l.spans[1].error_events.is_empty());
    assert_eq!(l.spans[2].name, "user.name");
    assert!(l.spans[2].ended);
    assert_eq!(l.spans[2].error_events, vec!["boom".to_string()]);
    assert!(l.spans[0].error_events.is_empty());
}

#[test]
fn field_span_attributes() {
    let s = field_span(&info("users.0.id", false)).unwrap();
    assert_eq!(s.name, "users.0.id");
    assert_eq!(
        s.attributes,
        vec![
            ("graphql.parentType".to_string(), "Query".to_string()),
            ("graphql.returnType".to_string(), "User".to_string())
        ]
    );
    assert!(field_span(&info("__typename", true)).is_none());
}

#[test]
fn filter_always_true_is_passthrough() {
    let mut l = SpanLedger::new("execute".to_string());
    l.resolve_filtered(&info("a", false), true, &Err("x".to_string()));
    l.resolve_filtered(&info("b", true), true, &Err("y".to_string()));
    assert_eq!(l.spans.len(), 1);
    assert!(l.spans[0].error_events.is_empty());
}

#[test]
fn filter_always_false_matches_unfiltered() {
    let mut a = SpanLedger::new("execute".to_string());
    let mut b = SpanLedger::new("execute".to_string());
    let cases = vec![
        (info("a", false), Ok(())),
        (info("b", true), Err("e1".to_string())),
        (info("c", false), Err("e2".to_string())),
    ];
    for (i, o) in &cases {
        a.resolve_filtered(i, false, o);
        b.resolve_field(i, o);
    }
    assert_eq!(a.spans.len(), b.spans.len());
    for k in 0..a.spans.len() {
        assert_eq!(a.spans[k].name, b.spans[k].name);
        assert_eq!(a.spans[k].attributes, b.spans[k].attributes);
        assert_eq!(a.spans[k].error_events, b.spans[k].error_events);
        assert_eq!(a.spans[k].ended, b.spans[k].ended);
    }
}

#[test]
fn interleaved_siblings_each_span_ended_once() {
    let mut l = SpanLedger::new("execute".to_string());
    let n: usize = 200;
    let mut seed: u64 = 0x2545_f491_4f6c_dd1d;
    let mut guards = Vec::new();
    for k in 0..n {
        guards.push(l.begin_resolve(&info(&format!("items.{}", k), false)));
    }
    assert_eq!(l.spans.len(), n + 1);
    assert!(l.spans.iter().all(|s| !s.ended));
    let mut failures = 0;
    let mut order: Vec<usize> = (0..n).collect();
    for k in (1..n).rev() {
        seed ^= seed << 13;
        seed ^= seed >> 7;
        seed ^= seed << 17;
        order.swap(k, (seed % (k as u64 + 1)) as usize);
    }
    let mut slots: Vec<Option<_>> = guards.into_iter().map(Some).collect();
    for &k in &order {
        seed ^= seed << 13;
        seed ^= seed >> 7;
        seed ^= seed << 17;
        let outcome = if seed % 3 == 0 {
            failures += 1;
            Err(format!("failed {}", k))
        } else {
            Ok(())
        };
        l.end_resolve(slots[k].take().unwrap(), &outcome);
    }
    assert_eq!(l.spans.len(), n + 1);
    assert!(l.spans[1..].iter().all(|s| s.ended));
    assert!(!l.spans[0].ended);
    let events: usize = l.spans[1..].iter().map(|s| s.error_events.len()).sum();
    assert_eq!(events, failures);
    assert!(l.spans[1..].iter().all(|s| s.error_events.len() <= 1));
    assert!(l.spans[0].error_events.is_empty());
}

#[test]
fn many_siblings_with_random_failures() {
    let n: usize = 300;
    let mut seed: u64 = 0x9e37_79b9_7f4a_7c15;
    let mut next = move || {
        seed ^= seed << 13;
        seed ^= seed >> 7;
        seed ^= seed << 17;
        seed
    };
    let infos: Vec<ResolveInfo> = (0..n)
        .map(|k| info(&format!("items.{}", k), k % 10 == 0))
        .collect();
    let outcomes: Vec<Result<(), String>> = (0..n)
        .map(|k| if next() % 4 == 0 { Err(format!("fail {}", k)) } else { Ok(()) })
        .collect();
    let mut order: Vec<usize> = (0..n).collect();
    for k in (1..n).rev() {
        let r = (next() % (k as u64 + 1)) as usize;
        order.swap(k, r);
    }
    let mut l = SpanLedger::new("execute".to_string());
    l.resolve_siblings(&infos, &outcomes, &order);
    let opened = infos.iter().filter(|i| !i.is_for_introspection).count();
    assert_eq!(l.spans.len(), 1 + opened);
    assert!(l.spans[1..].iter().all(|s| s.ended));
    assert!(!l.spans[0].ended);
    let mut pos = 1;
    for k in 0..n {
        if !infos[k].is_for_introspection {
            assert_eq!(l.spans[pos].name, infos[k].path);
            assert_eq!(l.spans[pos].error_events.len(), outcomes[k].is_err() as usize);
            pos += 1;
        }
    }
    let failed_introspection = (0..n)
        .filter(|&k| infos[k].is_for_introspection && outcomes[k].is_err())
        .count();
    assert_eq!(l.spans[0].error_events.len(), failed_introspection);
}
