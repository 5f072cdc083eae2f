//! The parent trace context carried by an inbound request's propagation
//! headers.
use vstd::prelude::*;
use vstd::string::*;

verus! {

/// Header that carries the parent trace and span identifiers.
pub const TRACEPARENT_HEADER: &'static str = "traceparent";

/// Header that carries vendor-specific trace state.
pub const TRACESTATE_HEADER: &'static str = "tracestate";

/// The text held by an optional header value.
pub open spec fn opt_text(o: Option<String>) -> Option<Seq<char>> {
    match o {
        Some(s) => Some(s@),
        None => None,
    }
}

/// The two propagation headers of a request, each present or not; a
/// propagator reads the parent context from them through `get` and `keys`.
#[derive(Debug, Clone)]
pub struct ParentTraceContext {
    parent: Option<String>,
    state: Option<String>,
}

impl ParentTraceContext {
    /// The `traceparent` value, if the request had one.
    pub closed spec fn parent_spec(&self) -> Option<Seq<char>> {
        opt_text(self.parent)
    }

    /// The `tracestate` value, if the request had one.
    pub closed spec fn state_spec(&self) -> Option<Seq<char>> {
        opt_text(self.state)
    }

    /// The value looked up under `key`: only the two propagation headers
    /// are known, each under its exact, case-sensitive name.
    pub open spec fn lookup_spec(&self, key: Seq<char>) -> Option<Seq<char>> {
        if key == TRACEPARENT_HEADER@ {
            self.parent_spec()
        } else if key == TRACESTATE_HEADER@ {
            self.state_spec()
        } else {
            None
        }
    }

    /// The names of the headers that are present, `traceparent` first.
    pub open spec fn keys_spec(&self) -> Seq<Seq<char>> {
        let p: Seq<Seq<char>> = if self.parent_spec() is Some {
            seq![TRACEPARENT_HEADER@]
        } else {
            Seq::empty()
        };
        if self.state_spec() is Some {
            p.push(TRACESTATE_HEADER@)
        } else {
            p
        }
    }

    pub fn new(parent: Option<String>, state: Option<String>) -> (r: Self)
        ensures
            r.parent_spec() == opt_text(parent),
            r.state_spec() == opt_text(state),
    {
        ParentTraceContext { parent, state }
    }

    /// The value of header `key`, if it is one of the two propagation
    /// headers and was present.
    pub fn get(&self, key: &str) -> (r: Option<&str>)
        ensures
            opt_str_text(r) == self.lookup_spec(key@),
    {
        let k = key.to_owned();
        let held = if k == TRACEPARENT_HEADER.to_owned() {
            &self.parent
        } else if k == TRACESTATE_HEADER.to_owned() {
            &self.state
        } else {
            return None;
        };
        match held {
            Some(v) => Some(v.as_str()),
            None => None,
        }
    }

    /// The names of the headers that are present.
    pub fn keys(&self) -> (r: Vec<&'static str>)
        ensures
            r@.map_values(|k: &str| k@) == self.keys_spec(),
    {
        let mut r: Vec<&'static str> = Vec::new();
        if self.parent.is_some() {
            r.push(TRACEPARENT_HEADER);
        }
        if self.state.is_some() {
            r.push(TRACESTATE_HEADER);
        }
        proof {
            assert(r@.map_values(|k: &str| k@) =~= self.keys_spec());
        }
        r
    }
}

/// The text held by an optional string slice.
pub open spec fn opt_str_text(o: Option<&str>) -> Option<Seq<char>> {
    match o {
        Some(s) => Some(s@),
        None => None,
    }
}

/// The propagation headers read from an inbound HTTP request: only those
/// that were present are held.
#[derive(Debug, Clone)]
pub struct ParentTraceContextAxum {
    traceparent: Option<String>,
    tracestate: Option<String>,
}

impl ParentTraceContextAxum {
    /// The `traceparent` header, if present.
    pub closed spec fn traceparent_spec(&self) -> Option<Seq<char>> {
        opt_text(self.traceparent)
    }

    /// The `tracestate` header, if present.
    pub closed spec fn tracestate_spec(&self) -> Option<Seq<char>> {
        opt_text(self.tracestate)
    }

    /// Builds the header map from what a request's headers hold under the
    /// two propagation header names.
    pub fn from_headers(traceparent: Option<String>, tracestate: Option<String>) -> (r: Self)
        ensures
            r.traceparent_spec() == opt_text(traceparent),
            r.tracestate_spec() == opt_text(tracestate),
    {
        ParentTraceContextAxum { traceparent, tracestate }
    }

    /// The parent context that these headers carry.
    pub fn to_parent_context(&self) -> (r: ParentTraceContext)
        ensures
            r.parent_spec() == self.traceparent_spec(),
            r.state_spec() == self.tracestate_spec(),
    {
        ParentTraceContext::new(self.traceparent.clone(), self.tracestate.clone())
    }
}


/// A header name other than the two propagation headers is never
/// enumerated and never found.
pub proof fn law_unknown_header_unseen(ctx: ParentTraceContext, key: Seq<char>)
    requires
        key != TRACEPARENT_HEADER@,
        key != TRACESTATE_HEADER@,
    ensures
        !ctx.keys_spec().contains(key),
        ctx.lookup_spec(key) is None,
{
    let ks = ctx.keys_spec();
    if ks.contains(key) {
        let i = choose|i: int| 0 <= i < ks.len() && ks[i] == key;
        assert(ks[i] == TRACEPARENT_HEADER@ || ks[i] == TRACESTATE_HEADER@);
    }
}

/// With only `traceparent` present, it is found and is the one key
/// enumerated; with neither header, nothing is found and nothing is
/// enumerated, so no parent can be extracted.
pub proof fn law_parent_only_when_sent(ctx: ParentTraceContext, key: Seq<char>)
    ensures
        ctx.parent_spec() is Some && ctx.state_spec() is None ==> ctx.lookup_spec(
            TRACEPARENT_HEADER@,
        ) == ctx.parent_spec() && ctx.keys_spec() == seq![TRACEPARENT_HEADER@],
        ctx.parent_spec() is None && ctx.state_spec() is None ==> ctx.keys_spec().len() == 0
            && ctx.lookup_spec(key) is None,
{
    reveal_strlit("traceparent");
    reveal_strlit("tracestate");
    assert(TRACEPARENT_HEADER@[5] != TRACESTATE_HEADER@[5]);
}

} // verus!
