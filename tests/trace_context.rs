use graphql_tracing::trace_context::{ParentTraceContext, ParentTraceContextAxum};

const PARENT: &str = "00-4bf92f3577b34da6a3ce929d0e0e4736-00f067aa0ba902b7-01";

#[test]
fn only_traceparent_is_found() {
    let ctx = ParentTraceContext::new(Some(PARENT.to_string()), None);
    assert_eq!(ctx.get("traceparent"), Some(PARENT));
    assert_eq!(ctx.get("tracestate"), None);
    assert_eq!(ctx.keys(), vec!["traceparent"]);
}

#[test]
fn no_headers_nothing_found() {
    let ctx = ParentTraceContext::new(None, None);
    assert_eq!(ctx.get("traceparent"), None);
    assert_eq!(ctx.get("tracestate"), None);
    assert!(ctx.keys().is_empty());
}

#[test]
fn unknown_header_never_seen() {
    let ctx = ParentTraceContext::new(Some(PARENT.to_string()), Some("k=v".to_string()));
    assert_eq!(ctx.get("x-other"), None);
    assert_eq!(ctx.get("TraceParent"), None);
    assert_eq!(ctx.keys(), vec!["traceparent", "tracestate"]);
    assert_eq!(ctx.get("tracestate"), Some("k=v"));
}

#[test]
fn axum_headers_carry_over() {
    let h = ParentTraceContextAxum::from_headers(None, Some("k=v".to_string()));
    let ctx = h.to_parent_context();
    assert_eq!(ctx.get("traceparent"), None);
    assert_eq!(ctx.get("tracestate"), Some("k=v"));
    assert_eq!(ctx.keys(), vec!["tracestate"]);
}
