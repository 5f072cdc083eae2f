//! Tracing instrumentation for a GraphQL request pipeline: credential
//! redaction of query variables, error summaries for error reporting,
//! trace-context extraction from inbound headers, and the span decisions
//! taken for each field resolution.

pub mod redact;
pub mod report;
pub mod trace_context;
pub mod resolve;
pub mod db;
pub mod datetime;
