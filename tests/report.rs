use graphql_tracing::report::{pad_id, render_path, summarize_errors, PathSegment, ServerError};

#[test]
fn error_paths_collect_only_errors_with_path() {
    let errs = vec![
        ServerError {
            message: "boom".to_string(),
            path: vec![
                PathSegment::Field("field".to_string()),
                PathSegment::Index(0),
                PathSegment::Field("child".to_string()),
            ],
        },
        ServerError { message: "other".to_string(), path: vec![] },
    ];
    let s = summarize_errors(&errs).unwrap();
    assert_eq!(s.paths, vec!["field.0.child".to_string()]);
    assert_eq!(s.errors, vec!["boom".to_string()]);
    assert_eq!(s.message, "boom");
}

#[test]
fn first_message_reported_even_without_path() {
    let errs = vec![
        ServerError { message: "first".to_string(), path: vec![] },
        ServerError { message: "second".to_string(), path: vec![PathSegment::Index(12)] },
    ];
    let s = summarize_errors(&errs).unwrap();
    assert_eq!(s.paths, vec!["12".to_string()]);
    assert_eq!(s.errors, vec!["second".to_string()]);
    assert_eq!(s.message, "first");
}

#[test]
fn no_errors_no_summary() {
    assert!(summarize_errors(&vec![]).is_none());
}

#[test]
fn render_paths() {
    assert_eq!(render_path(&vec![]), "");
    assert_eq!(render_path(&vec![PathSegment::Field("a".to_string())]), "a");
    assert_eq!(
        render_path(&vec![PathSegment::Index(305), PathSegment::Field("b".to_string())]),
        "305.b"
    );
}

#[test]
fn ids_padded_to_32() {
    assert_eq!(pad_id("00f067aa0ba902b7"), "000000000000000000f067aa0ba902b7");
    assert_eq!(pad_id("4bf92f3577b34da6a3ce929d0e0e4736"), "4bf92f3577b34da6a3ce929d0e0e4736");
    assert_eq!(pad_id(""), "00000000000000000000000000000000");
}
