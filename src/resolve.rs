//! Span bookkeeping for field resolutions.
//!
//! A [`SpanLedger`] holds the spans of one request's execution; its first
//! span encloses every field resolution. Each resolution opens a span of
//! its own unless it serves introspection, and is closed through the
//! [`ResolveGuard`] it was handed, which is consumed: a span is ended once.
//! An error of a resolution that has no span of its own is recorded on the
//! enclosing span.
use vstd::prelude::*;
use vstd::string::*;

verus! {

/// Name of the attribute that holds a field's parent type.
pub const KEY_PARENT_TYPE: &'static str = "graphql.parentType";

/// Name of the attribute that holds a field's return type.
pub const KEY_RETURN_TYPE: &'static str = "graphql.returnType";

/// What the engine tells about one field resolution.
#[derive(Debug, Clone)]
pub struct ResolveInfo {
    /// The field's path, rendered as text.
    pub path: String,
    pub parent_type: String,
    pub return_type: String,
    pub is_for_introspection: bool,
}

/// One span: its name, attributes, the messages of its error events, and
/// whether it has ended.
#[derive(Debug, Clone)]
pub struct SpanRecord {
    pub name: String,
    pub attributes: Vec<(String, String)>,
    pub error_events: Vec<String>,
    pub ended: bool,
}

/// The spans of one execution; the first encloses all field resolutions.
pub struct SpanLedger {
    pub spans: Vec<SpanRecord>,
}

/// Handed out when a resolution begins and consumed when it ends.
pub struct ResolveGuard {
    span: Option<usize>,
}

impl ResolveGuard {
    /// The index of the span opened for this resolution, if any.
    pub closed spec fn span_spec(&self) -> Option<usize> {
        self.span
    }
}

/// `r` is the span opened for the resolution `info`: named after the path,
/// with its parent and return types as attributes, open and without events.
pub open spec fn field_span_of(info: ResolveInfo, r: SpanRecord) -> bool {
    &&& r.name@ == info.path@
    &&& r.attributes.len() == 2
    &&& r.attributes@[0].0@ == KEY_PARENT_TYPE@
    &&& r.attributes@[0].1@ == info.parent_type@
    &&& r.attributes@[1].0@ == KEY_RETURN_TYPE@
    &&& r.attributes@[1].1@ == info.return_type@
    &&& r.error_events.len() == 0
    &&& !r.ended
}

/// The span that an error of a resolution is recorded on: its own, or the
/// enclosing one.
pub open spec fn error_target(g: ResolveGuard) -> int {
    match g.span_spec() {
        Some(i) => i as int,
        None => 0,
    }
}

/// Builds the span for a field resolution, or none when the field serves
/// introspection.
pub fn field_span(info: &ResolveInfo) -> (r: Option<SpanRecord>)
    ensures
        r is None <==> info.is_for_introspection,
        r matches Some(s) ==> field_span_of(*info, s),
{
    if info.is_for_introspection {
        return None;
    }
    let mut attributes: Vec<(String, String)> = Vec::new();
    attributes.push((String::from_str(KEY_PARENT_TYPE), info.parent_type.clone()));
    attributes.push((String::from_str(KEY_RETURN_TYPE), info.return_type.clone()));
    Some(
        SpanRecord {
            name: info.path.clone(),
            attributes,
            error_events: Vec::new(),
            ended: false,
        },
    )
}

impl SpanLedger {
    /// The ledger holds its enclosing span.
    pub open spec fn wf(&self) -> bool {
        self.spans.len() >= 1
    }

    /// `g` may be used to end a resolution: the span it names exists, is
    /// not the enclosing one, and has not ended.
    pub open spec fn guard_valid(&self, g: ResolveGuard) -> bool {
        &&& self.wf()
        &&& g.span_spec() matches Some(i) ==> 1 <= i < self.spans.len() && !self.spans@[i as int].ended
    }

    /// A ledger whose only span is the open enclosing span `name`.
    pub fn new(name: String) -> (r: Self)
        ensures
            r.wf(),
            r.spans.len() == 1,
            r.spans@[0].name@ == name@,
            r.spans@[0].attributes.len() == 0,
            r.spans@[0].error_events.len() == 0,
            !r.spans@[0].ended,
    {
        let mut spans: Vec<SpanRecord> = Vec::new();
        spans.push(
            SpanRecord { name, attributes: Vec::new(), error_events: Vec::new(), ended: false },
        );
        SpanLedger { spans }
    }

    /// Begins a field resolution seen by the tracing unit: a span is opened
    /// for it unless it serves introspection.
    pub fn begin_resolve(&mut self, info: &ResolveInfo) -> (g: ResolveGuard)
        requires
            old(self).wf(),
        ensures
            final(self).wf(),
            info.is_for_introspection ==> final(self).spans@ == old(self).spans@ && g.span_spec() is None,
            !info.is_for_introspection ==> {
                &&& final(self).spans.len() == old(self).spans.len() + 1
                &&& final(self).spans@.drop_last() == old(self).spans@
                &&& field_span_of(*info, final(self).spans@.last())
                &&& g.span_spec() == Some(old(self).spans.len() as usize)
            },
    {
        match field_span(info) {
            None => ResolveGuard { span: None },
            Some(s) => {
                let i = self.spans.len();
                self.spans.push(s);
                proof {
                    assert(self.spans@.drop_last() =~= old(self).spans@);
                }
                ResolveGuard { span: Some(i) }
            },
        }
    }

    /// Ends a field resolution with its outcome: a failure is recorded as
    /// one error event on the resolution's span, or on the enclosing span if
    /// it has none; then the resolution's own span, if any, ends.
    pub fn end_resolve(&mut self, g: ResolveGuard, outcome: &Result<(), String>)
        requires
            old(self).guard_valid(g),
        ensures
            final(self).wf(),
            final(self).spans.len() == old(self).spans.len(),
            forall|i: int|
                0 <= i < old(self).spans.len() && i != error_target(g) ==> #[trigger] final(self).spans@[i]
                    == old(self).spans@[i],
            ({
                let t = error_target(g);
                let (before, after) = (old(self).spans@[t], final(self).spans@[t]);
                &&& after.name == before.name
                &&& after.attributes == before.attributes
                &&& after.error_events@ == if outcome is Err {
                    before.error_events@.push(outcome->Err_0)
                } else {
                    before.error_events@
                }
                &&& after.ended == (before.ended || g.span_spec() is Some)
            }),
    {
        let t: usize = match g.span {
            Some(i) => i,
            None => 0,
        };
        if let Err(msg) = outcome {
            self.spans[t].error_events.push(msg.clone());
        }
        if g.span.is_some() {
            self.spans[t].ended = true;
        }
    }
}


/// `after` is `before` once a resolution of `info` with outcome `outcome`
/// has run through the tracing unit: for an introspection field no span is
/// created and a failure adds one error event to the enclosing span; for
/// any other field exactly one span is created, it carries the failure if
/// there was one, and it has ended.
pub open spec fn resolved(
    before: Seq<SpanRecord>,
    info: ResolveInfo,
    outcome: Result<(), String>,
    after: Seq<SpanRecord>,
) -> bool {
    if info.is_for_introspection {
        &&& after.len() == before.len()
        &&& forall|i: int| 1 <= i < before.len() ==> #[trigger] after[i] == before[i]
        &&& after[0].name == before[0].name
        &&& after[0].attributes == before[0].attributes
        &&& after[0].ended == before[0].ended
        &&& after[0].error_events@ == match outcome {
            Err(m) => before[0].error_events@.push(m),
            Ok(_) => before[0].error_events@,
        }
    } else {
        let s = after.last();
        &&& after.len() == before.len() + 1
        &&& after.drop_last() == before
        &&& s.name@ == info.path@
        &&& s.attributes.len() == 2
        &&& s.attributes@[0].0@ == KEY_PARENT_TYPE@
        &&& s.attributes@[0].1@ == info.parent_type@
        &&& s.attributes@[1].0@ == KEY_RETURN_TYPE@
        &&& s.attributes@[1].1@ == info.return_type@
        &&& s.error_events@ == match outcome {
            Err(m) => seq![m],
            Ok(_) => Seq::empty(),
        }
        &&& s.ended
    }
}

impl SpanLedger {
    /// Runs the tracing unit's part of one field resolution whose
    /// continuation came back with `outcome`.
    pub fn resolve_field(&mut self, info: &ResolveInfo, outcome: &Result<(), String>)
        requires
            old(self).wf(),
        ensures
            final(self).wf(),
            resolved(old(self).spans@, *info, *outcome, final(self).spans@),
    {
        let g = self.begin_resolve(info);
        let ghost mid = self.spans@;
        self.end_resolve(g, outcome);
        proof {
            if !info.is_for_introspection {
                let n = old(self).spans.len() as int;
                assert(mid[n].error_events@ =~= Seq::empty());
                assert forall|i: int| 0 <= i < n implies #[trigger] self.spans@[i] == old(self).spans@[i] by {
                    assert(self.spans@[i] == mid[i]);
                    assert(mid.drop_last()[i] == mid[i]);
                }
                assert(self.spans@.drop_last() =~= old(self).spans@);
                if outcome is Err {
                    assert(self.spans@[n].error_events@ =~= seq![outcome->Err_0]);
                }
            }
        }
    }

    /// Runs one field resolution behind a filter: an excluded field passes
    /// straight to its continuation and leaves no trace; any other is
    /// exactly `resolve_field`.
    pub fn resolve_filtered(
        &mut self,
        info: &ResolveInfo,
        excluded: bool,
        outcome: &Result<(), String>,
    )
        requires
            old(self).wf(),
        ensures
            final(self).wf(),
            excluded ==> final(self).spans@ == old(self).spans@,
            !excluded ==> resolved(old(self).spans@, *info, *outcome, final(self).spans@),
    {
        if !excluded {
            self.resolve_field(info, outcome);
        }
    }
}


/// How many of the first `k` resolutions open a span of their own.
pub open spec fn spans_opened(infos: Seq<ResolveInfo>, k: int) -> nat
    decreases k,
{
    if k <= 0 {
        0
    } else {
        spans_opened(infos, k - 1) + if infos[k - 1].is_for_introspection {
            0nat
        } else {
            1nat
        }
    }
}

/// How many introspection resolutions among those that finished first,
/// `order[0..j]`, failed.
pub open spec fn failed_introspections(
    infos: Seq<ResolveInfo>,
    outcomes: Seq<Result<(), String>>,
    order: Seq<usize>,
    j: int,
) -> nat
    decreases j,
{
    if j <= 0 {
        0
    } else {
        let k = order[j - 1] as int;
        failed_introspections(infos, outcomes, order, j - 1) + if infos[k].is_for_introspection
            && outcomes[k] is Err {
            1nat
        } else {
            0nat
        }
    }
}

/// `g` holds the guard handed out for `info`, whose span, if any, is at
/// `pos`.
pub open spec fn guard_for(g: Option<ResolveGuard>, info: ResolveInfo, pos: int) -> bool {
    match g {
        Some(g) => g.span_spec() == if info.is_for_introspection {
            None::<usize>
        } else {
            Some(pos as usize)
        },
        None => false,
    }
}

/// One of `order[0..j]` is `k`: resolution `k` has finished.
pub open spec fn finished(order: Seq<usize>, j: int, k: int) -> bool {
    exists|d: int| 0 <= d < j && order[d] == k
}

/// The state of one sibling resolution: its guard is still held exactly
/// while it has not finished, and its span, if any, is at `pos`, has ended
/// exactly when it has finished, and holds its failure once it has.
pub open spec fn sibling_ok(
    spans: Seq<SpanRecord>,
    g: Option<ResolveGuard>,
    info: ResolveInfo,
    outcome: Result<(), String>,
    pos: int,
    done: bool,
) -> bool {
    &&& (g is None) == done
    &&& !done ==> guard_for(g, info, pos)
    &&& !info.is_for_introspection ==> {
        &&& spans[pos].name@ == info.path@
        &&& spans[pos].ended == done
        &&& spans[pos].error_events.len() == if done && outcome is Err {
            1int
        } else {
            0int
        }
    }
}

/// `order` lists each of `0..n` exactly once.
pub open spec fn is_order_of(order: Seq<usize>, n: nat) -> bool {
    &&& order.len() == n
    &&& forall|j: int| 0 <= j < n ==> #[trigger] order[j] < n
    &&& forall|a: int, b: int| 0 <= a < b < n ==> order[a] != order[b]
    &&& forall|k: int| 0 <= k < n ==> #[trigger] listed(order, k)
}

/// `k` occurs in `order`.
pub open spec fn listed(order: Seq<usize>, k: int) -> bool {
    exists|j: int| 0 <= j < order.len() && order[j] == k
}

proof fn lemma_span_owner(infos: Seq<ResolveInfo>, n: int, t: int)
    requires
        0 <= t < spans_opened(infos, n),
    ensures
        exists|k: int|
            0 <= k < n && !(#[trigger] infos[k]).is_for_introspection && spans_opened(infos, k) == t,
    decreases n,
{
    if n > 0 {
        if t < spans_opened(infos, n - 1) {
            lemma_span_owner(infos, n - 1, t);
        } else {
            assert(!infos[n - 1].is_for_introspection);
        }
    }
}

proof fn lemma_spans_opened_grows(infos: Seq<ResolveInfo>, a: int, b: int)
    requires
        0 <= a <= b,
    ensures
        spans_opened(infos, a) <= spans_opened(infos, b),
    decreases b - a,
{
    if a < b {
        lemma_spans_opened_grows(infos, a, b - 1);
    }
}

/// After the resolution `order[j]` has ended (its guard taken, `after` as
/// `end_resolve` leaves it), every sibling is in its state for `j + 1`.
proof fn lemma_finish_step(
    before: Seq<SpanRecord>,
    after: Seq<SpanRecord>,
    gs: Seq<Option<ResolveGuard>>,
    gs2: Seq<Option<ResolveGuard>>,
    infos: Seq<ResolveInfo>,
    outcomes: Seq<Result<(), String>>,
    order: Seq<usize>,
    base: int,
    j: int,
    g: ResolveGuard,
)
    requires
        is_order_of(order, infos.len()),
        outcomes.len() == infos.len(),
        0 <= j < infos.len(),
        base >= 1,
        before.len() == base + spans_opened(infos, infos.len() as int),
        before.len() <= usize::MAX,
        gs.len() == infos.len(),
        gs2 == gs.update(order[j] as int, None),
        gs[order[j] as int] == Some(g),
        forall|k: int|
            0 <= k < infos.len() ==> sibling_ok(
                before,
                #[trigger] gs[k],
                infos[k],
                outcomes[k],
                base + spans_opened(infos, k),
                finished(order, j, k),
            ),
        after.len() == before.len(),
        forall|i: int| 0 <= i < before.len() && i != error_target(g) ==> #[trigger] after[i] == before[i],
        ({
            let t = error_target(g);
            let (b, a) = (before[t], after[t]);
            &&& a.name == b.name
            &&& a.error_events@ == if outcomes[order[j] as int] is Err {
                b.error_events@.push(outcomes[order[j] as int]->Err_0)
            } else {
                b.error_events@
            }
            &&& a.ended == (b.ended || g.span_spec() is Some)
        }),
    ensures
        forall|m: int|
            0 <= m < infos.len() ==> sibling_ok(
                after,
                #[trigger] gs2[m],
                infos[m],
                outcomes[m],
                base + spans_opened(infos, m),
                finished(order, j + 1, m),
            ),
{
    let n = infos.len() as int;
    let k = order[j] as int;
    let pk = base + spans_opened(infos, k);
    assert forall|d: int| 0 <= d < j implies order[d] != k by {
        assert(order[d] != order[j]);
    }
    assert(!finished(order, j, k));
    assert(sibling_ok(before, gs[k], infos[k], outcomes[k], pk, false));
    if !infos[k].is_for_introspection {
        lemma_spans_opened_grows(infos, k + 1, n);
        assert(error_target(g) == pk);
    } else {
        assert(error_target(g) == 0);
    }
    assert forall|m: int| 0 <= m < n implies sibling_ok(
        after,
        #[trigger] gs2[m],
        infos[m],
        outcomes[m],
        base + spans_opened(infos, m),
        finished(order, j + 1, m),
    ) by {
        let pm = base + spans_opened(infos, m);
        assert(sibling_ok(before, gs[m], infos[m], outcomes[m], pm, finished(order, j, m)));
        if m != k {
            if finished(order, j + 1, m) {
                let d = choose|d: int| 0 <= d < j + 1 && order[d] == m;
                assert(d != j);
            }
            assert(finished(order, j + 1, m) == finished(order, j, m));
            if !infos[m].is_for_introspection {
                lemma_spans_opened_grows(infos, 0, m);
                lemma_spans_opened_grows(infos, m + 1, n);
                if !infos[k].is_for_introspection {
                    if m < k {
                        lemma_spans_opened_grows(infos, m + 1, k);
                    } else {
                        lemma_spans_opened_grows(infos, k + 1, m);
                    }
                }
                assert(after[pm] == before[pm]);
            }
        } else {
            assert forall|d: int| 0 <= d < j implies order[d] != k by {
                assert(order[d] != order[j]);
            }
            assert(!finished(order, j, k));
            assert(finished(order, j + 1, k));
        }
    }
}

impl SpanLedger {
    /// Begins every resolution of `infos`, in order, and hands back their
    /// guards.
    #[verifier::rlimit(50)]
    fn begin_siblings(&mut self, infos: &Vec<ResolveInfo>) -> (guards: Vec<Option<ResolveGuard>>)
        requires
            old(self).wf(),
        ensures
            final(self).wf(),
            final(self).spans.len() == old(self).spans.len() + spans_opened(infos@, infos.len() as int),
            final(self).spans@[0] == old(self).spans@[0],
            forall|s: int| 1 <= s < old(self).spans.len() ==> #[trigger] final(self).spans@[s] == old(self).spans@[s],
            guards.len() == infos.len(),
            forall|k: int|
                0 <= k < infos.len() ==> {
                    let pos = old(self).spans.len() + spans_opened(infos@, k);
                    &&& guard_for(#[trigger] guards@[k], infos@[k], pos)
                    &&& !infos@[k].is_for_introspection ==> {
                        &&& final(self).spans@[pos].name@ == infos@[k].path@
                        &&& !final(self).spans@[pos].ended
                        &&& final(self).spans@[pos].error_events.len() == 0
                    }
                },
    {
        let ghost base = old(self).spans.len() as int;
        let mut guards: Vec<Option<ResolveGuard>> = Vec::new();
        let mut i: usize = 0;
        while i < infos.len()
            invariant
                i <= infos.len(),
                self.wf(),
                self.spans.len() == base + spans_opened(infos@, i as int),
                base == old(self).spans.len(),
                self.spans@[0] == old(self).spans@[0],
                forall|s: int| 1 <= s < base ==> #[trigger] self.spans@[s] == old(self).spans@[s],
                guards.len() == i,
                forall|k: int|
                    0 <= k < i ==> {
                        let pos = base + spans_opened(infos@, k);
                        &&& guard_for(#[trigger] guards@[k], infos@[k], pos)
                        &&& !infos@[k].is_for_introspection ==> {
                            &&& self.spans@[pos].name@ == infos@[k].path@
                            &&& !self.spans@[pos].ended
                            &&& self.spans@[pos].error_events.len() == 0
                        }
                    },
            decreases infos.len() - i,
        {
            let ghost before = self.spans@;
            let g = self.begin_resolve(&infos[i]);
            proof {
                if !infos@[i as int].is_for_introspection {
                    assert forall|s: int| 0 <= s < before.len() implies #[trigger] self.spans@[s]
                        == before[s] by {
                        assert(self.spans@.drop_last()[s] == self.spans@[s]);
                    }
                }
                assert forall|k: int|
                    0 <= k < i && !(#[trigger] infos@[k]).is_for_introspection implies base
                        + spans_opened(infos@, k) < before.len() by {
                    lemma_spans_opened_grows(infos@, k + 1, i as int);
                }
            }
            guards.push(Some(g));
            i += 1;
        }
        guards
    }

    /// Ends the resolutions whose guards are in `guards`, in `finish_order`.
    fn finish_siblings(
        &mut self,
        guards: Vec<Option<ResolveGuard>>,
        infos: &Vec<ResolveInfo>,
        outcomes: &Vec<Result<(), String>>,
        finish_order: &Vec<usize>,
        Ghost(base): Ghost<int>,
    )
        requires
            old(self).wf(),
            base >= 1,
            old(self).spans.len() == base + spans_opened(infos@, infos.len() as int),
            outcomes.len() == infos.len(),
            is_order_of(finish_order@, infos.len() as nat),
            guards.len() == infos.len(),
            forall|k: int|
                0 <= k < infos.len() ==> sibling_ok(
                    old(self).spans@,
                    #[trigger] guards@[k],
                    infos@[k],
                    outcomes@[k],
                    base + spans_opened(infos@, k),
                    false,
                ),
        ensures
            final(self).wf(),
            final(self).spans.len() == old(self).spans.len(),
            forall|s: int| 1 <= s < base ==> #[trigger] final(self).spans@[s] == old(self).spans@[s],
            final(self).spans@[0].ended == old(self).spans@[0].ended,
            final(self).spans@[0].error_events.len() == old(self).spans@[0].error_events.len()
                + failed_introspections(infos@, outcomes@, finish_order@, infos.len() as int),
            forall|k: int|
                0 <= k < infos.len() ==> sibling_ok(
                    final(self).spans@,
                    None,
                    #[trigger] infos@[k],
                    outcomes@[k],
                    base + spans_opened(infos@, k),
                    true,
                ),
    {
        let ghost n = infos.len() as int;
        let mut guards = guards;
        let mut j: usize = 0;
        while j < finish_order.len()
            invariant
                j <= finish_order.len(),
                finish_order.len() == n,
                n == infos.len(),
                outcomes.len() == n,
                is_order_of(finish_order@, n as nat),
                base >= 1,
                self.wf(),
                self.spans.len() == old(self).spans.len(),
                old(self).spans.len() == base + spans_opened(infos@, n),
                self.spans@[0].ended == old(self).spans@[0].ended,
                self.spans@[0].error_events.len() == old(self).spans@[0].error_events.len()
                    + failed_introspections(infos@, outcomes@, finish_order@, j as int),
                forall|s: int| 1 <= s < base ==> #[trigger] self.spans@[s] == old(self).spans@[s],
                guards.len() == n,
                forall|k: int|
                    0 <= k < n ==> sibling_ok(
                        self.spans@,
                        #[trigger] guards@[k],
                        infos@[k],
                        outcomes@[k],
                        base + spans_opened(infos@, k),
                        finished(finish_order@, j as int, k),
                    ),
            decreases finish_order.len() - j,
        {
            let k = finish_order[j];
            let ghost pk = base + spans_opened(infos@, k as int);
            proof {
                assert(k < n);
                assert forall|d: int| 0 <= d < j implies finish_order@[d] != k by {
                    assert(finish_order@[d] != finish_order@[j as int]);
                }
                assert(!finished(finish_order@, j as int, k as int));
                assert(sibling_ok(
                    self.spans@,
                    guards@[k as int],
                    infos@[k as int],
                    outcomes@[k as int],
                    pk,
                    false,
                ));
                lemma_spans_opened_grows(infos@, 0, k as int);
                if !infos@[k as int].is_for_introspection {
                    lemma_spans_opened_grows(infos@, k + 1, n);
                }
            }
            let ghost before = self.spans@;
            let ghost gs = guards@;
            let g = guards[k].take().unwrap();
            let ghost gg = g;
            self.end_resolve(g, &outcomes[k]);
            proof {
                assert(guards@ == gs.update(k as int, None));
                lemma_finish_step(
                    before,
                    self.spans@,
                    gs,
                    guards@,
                    infos@,
                    outcomes@,
                    finish_order@,
                    base,
                    j as int,
                    gg,
                );
            }
            j += 1;
        }
        proof {
            assert forall|k: int| 0 <= k < n implies sibling_ok(
                self.spans@,
                None,
                #[trigger] infos@[k],
                outcomes@[k],
                base + spans_opened(infos@, k),
                true,
            ) by {
                assert(listed(finish_order@, k));
                assert(finished(finish_order@, n, k));
                assert(sibling_ok(
                    self.spans@,
                    guards@[k],
                    infos@[k],
                    outcomes@[k],
                    base + spans_opened(infos@, k),
                    true,
                ));
            }
        }
    }

    /// Runs the tracing unit's part of sibling field resolutions that all
    /// begin before any of them finishes, and finish in `finish_order`, the
    /// `k`-th with `outcomes[k]`. One span is opened per resolution that is
    /// not for introspection, at the position given by the resolutions
    /// before it; each ends once, holding its failure if there was one;
    /// every failure of an introspection resolution is an error event on the
    /// enclosing span.
    #[verifier::rlimit(50)]
    pub fn resolve_siblings(
        &mut self,
        infos: &Vec<ResolveInfo>,
        outcomes: &Vec<Result<(), String>>,
        finish_order: &Vec<usize>,
    )
        requires
            old(self).wf(),
            outcomes.len() == infos.len(),
            is_order_of(finish_order@, infos.len() as nat),
        ensures
            final(self).wf(),
            final(self).spans.len() == old(self).spans.len() + spans_opened(infos@, infos.len() as int),
            forall|i: int| 1 <= i < old(self).spans.len() ==> #[trigger] final(self).spans@[i] == old(self).spans@[i],
            forall|i: int|
                old(self).spans.len() <= i < final(self).spans.len() ==> (#[trigger] final(self).spans@[i]).ended,
            forall|k: int|
                0 <= k < infos.len() && !(#[trigger] infos@[k]).is_for_introspection ==> {
                    let s = final(self).spans@[old(self).spans.len() + spans_opened(infos@, k)];
                    &&& s.name@ == infos@[k].path@
                    &&& s.error_events.len() == if outcomes@[k] is Err { 1int } else { 0int }
                },
            final(self).spans@[0].ended == old(self).spans@[0].ended,
            final(self).spans@[0].error_events.len() == old(self).spans@[0].error_events.len()
                + failed_introspections(infos@, outcomes@, finish_order@, infos.len() as int),
    {
        let ghost base = old(self).spans.len() as int;
        let ghost n = infos.len() as int;
        let guards = self.begin_siblings(infos);
        proof {
            assert forall|k: int| 0 <= k < n implies sibling_ok(
                self.spans@,
                #[trigger] guards@[k],
                infos@[k],
                outcomes@[k],
                base + spans_opened(infos@, k),
                false,
            ) by {}
        }
        self.finish_siblings(guards, infos, outcomes, finish_order, Ghost(base));
        proof {
            assert forall|i: int| base <= i < self.spans.len() implies (#[trigger] self.spans@[i]).ended by {
                lemma_span_owner(infos@, n, i - base);
                let k = choose|k: int|
                    0 <= k < n && !(#[trigger] infos@[k]).is_for_introspection && spans_opened(infos@, k) == i - base;
                assert(sibling_ok(self.spans@, None, infos@[k], outcomes@[k], i, true));
            }
            assert forall|k: int|
                0 <= k < n && !(#[trigger] infos@[k]).is_for_introspection implies {
                    let s = self.spans@[base + spans_opened(infos@, k)];
                    &&& s.name@ == infos@[k].path@
                    &&& s.error_events.len() == if outcomes@[k] is Err { 1int } else { 0int }
                } by {
                assert(sibling_ok(
                    self.spans@,
                    None,
                    infos@[k],
                    outcomes@[k],
                    base + spans_opened(infos@, k),
                    true,
                ));
            }
        }
    }
}

} // verus!
